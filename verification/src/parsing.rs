//! Parsing of clipping exports into structured entries.
//!
//! A clippings file holds annotation blocks separated by lines of `=`
//! characters.  Each block is a title line (with an optional parenthesized
//! author suffix), an action line naming the annotation kind, its page or
//! location and a date, and zero or more content lines.  [`parse_clippings`]
//! turns a whole file into an ordered sequence of [`Entry`] records, or
//! reports the first malformed block.

use vstd::prelude::*;
use vstd::string::StrSliceExecFns;

use crate::text::{
    is_space_char, is_word_char, space_char, word_char, digit_char, is_digit_char,
    first_space_idx, lemma_first_space_idx, first_hyphen_idx, lemma_first_hyphen_idx,
    word_run_len, lemma_word_run_len, trim_spec, trim_str, trim_end_spec, trim_end_str,
    starts_with, str_starts_with, str_eq, contains_seq, str_contains, views_of, join_space,
    join_space_range, lines_of, split_trimmed_lines,
};

verus! {

// ---------------------------------------------------------------------------
// The entry record and its mathematical model
// ---------------------------------------------------------------------------

/// The mathematical model of an [`Entry`]: each text field as a character
/// sequence.
pub struct EntryModel {
    pub title: Seq<char>,
    pub author: Option<Seq<char>>,
    pub action: Seq<char>,
    pub page: Option<Seq<char>>,
    pub location: Option<Seq<char>>,
    pub date: Seq<char>,
    pub content: Option<Seq<char>>,
}

/// The view of an optional string.
pub open spec fn opt_seq(o: Option<String>) -> Option<Seq<char>> {
    match o {
        Some(s) => Some(s@),
        None => None,
    }
}

/// One structured annotation record.
///
/// `title` is the book title; `author` is absent when the title line has no
/// parenthesized suffix; `action` is the annotation kind keyword; `page` and
/// `location` preserve the page or location tokens verbatim; `date` carries
/// the date text opaque; `content` holds the joined annotation body for
/// highlights and notes and is absent for bookmarks.
#[derive(Debug)]
pub struct Entry {
    title: String,
    author: Option<String>,
    action: String,
    page: Option<String>,
    location: Option<String>,
    date: String,
    content: Option<String>,
}

impl View for Entry {
    type V = EntryModel;

    closed spec fn view(&self) -> EntryModel {
        EntryModel {
            title: self.title@,
            author: opt_seq(self.author),
            action: self.action@,
            page: opt_seq(self.page),
            location: opt_seq(self.location),
            date: self.date@,
            content: opt_seq(self.content),
        }
    }
}

/// Clones an optional string.
fn clone_opt_string(o: &Option<String>) -> (r: Option<String>)
    ensures
        opt_seq(r) == opt_seq(*o),
{
    match o {
        Some(s) => Some(s.clone()),
        None => None,
    }
}

impl Entry {
    /// Builds an entry from its seven fields, stored as given.
    pub fn new(
        title: String,
        author: Option<String>,
        action: String,
        page: Option<String>,
        location: Option<String>,
        date: String,
        content: Option<String>,
    ) -> (e: Entry)
        ensures
            e@.title == title@,
            e@.author == opt_seq(author),
            e@.action == action@,
            e@.page == opt_seq(page),
            e@.location == opt_seq(location),
            e@.date == date@,
            e@.content == opt_seq(content),
    {
        Entry { title, author, action, page, location, date, content }
    }

    pub fn title(&self) -> (r: String)
        ensures
            r@ == self@.title,
    {
        self.title.clone()
    }

    pub fn author(&self) -> (r: Option<String>)
        ensures
            opt_seq(r) == self@.author,
    {
        clone_opt_string(&self.author)
    }

    pub fn action(&self) -> (r: String)
        ensures
            r@ == self@.action,
    {
        self.action.clone()
    }

    pub fn date(&self) -> (r: String)
        ensures
            r@ == self@.date,
    {
        self.date.clone()
    }

    pub fn page(&self) -> (r: Option<String>)
        ensures
            opt_seq(r) == self@.page,
    {
        clone_opt_string(&self.page)
    }

    pub fn location(&self) -> (r: Option<String>)
        ensures
            opt_seq(r) == self@.location,
    {
        clone_opt_string(&self.location)
    }

    pub fn content(&self) -> (r: Option<String>)
        ensures
            opt_seq(r) == self@.content,
    {
        clone_opt_string(&self.content)
    }

    /// Whether the author field is present and holds `sequence` as a
    /// substring.
    pub fn author_contains(&self, sequence: &str) -> (r: bool)
        ensures
            r == match self@.author {
                Some(a) => contains_seq(a, sequence@),
                None => false,
            },
    {
        match &self.author {
            None => false,
            Some(author) => str_contains(author.as_str(), sequence),
        }
    }
}

// ---------------------------------------------------------------------------
// Parse failures
// ---------------------------------------------------------------------------

/// The model of a parse failure.
pub enum ParseErrorModel {
    /// The second line of a block does not match the action-line grammar;
    /// carries that line.
    MalformedActionLine(Seq<char>),
    /// A block starts with a title line but the input ends before its action
    /// line.
    TruncatedBlock,
}

/// A parse failure: the whole parse aborts at the first malformed block.
#[derive(Debug)]
pub enum ParsingError {
    /// The second line of a block does not match the action-line grammar;
    /// carries the offending line's text.
    MalformedActionLine(String),
    /// A block starts with a title line but the input ends before its action
    /// line.
    TruncatedBlock,
}

impl View for ParsingError {
    type V = ParseErrorModel;

    open spec fn view(&self) -> ParseErrorModel {
        match self {
            ParsingError::MalformedActionLine(l) => ParseErrorModel::MalformedActionLine(l@),
            ParsingError::TruncatedBlock => ParseErrorModel::TruncatedBlock,
        }
    }
}

// ---------------------------------------------------------------------------
// Separator lines
// ---------------------------------------------------------------------------

/// A block separator: a line whose first ten characters are `=`.
pub open spec fn is_separator_line(l: Seq<char>) -> bool {
    l.len() >= 10 && forall|j: int| 0 <= j < 10 ==> l[j] == '='
}

/// Whether `line` is a block separator.
pub fn separator_line(line: &str) -> (b: bool)
    ensures
        b == is_separator_line(line@),
{
    let n = line.unicode_len();
    if n < 10 {
        return false;
    }
    let mut j: usize = 0;
    while j < 10
        invariant
            0 <= j <= 10,
            10 <= n,
            n == line@.len(),
            forall|k: int| 0 <= k < j ==> line@[k] == '=',
        decreases 10 - j,
    {
        if line.get_char(j) != '=' {
            return false;
        }
        j = j + 1;
    }
    true
}

// ---------------------------------------------------------------------------
// The title line
// ---------------------------------------------------------------------------

/// An author suffix can open at `q`: a `(` preceded by whitespace, with room
/// for the closing `)` at the end of the line.
pub open spec fn author_open_at(l: Seq<char>, q: int) -> bool {
    1 <= q <= l.len() - 2 && l[q] == '(' && is_space_char(l[q - 1])
}

/// The rightmost position `<= q` where an author suffix can open, or `-1`.
pub open spec fn find_open_from(l: Seq<char>, q: int) -> int
    decreases q,
{
    if q < 1 {
        -1
    } else if author_open_at(l, q) {
        q
    } else {
        find_open_from(l, q - 1)
    }
}

pub proof fn lemma_find_open_from(l: Seq<char>, q: int)
    ensures
        find_open_from(l, q) == -1 || (1 <= find_open_from(l, q) && find_open_from(l, q) <= q),
        find_open_from(l, q) >= 0 ==> author_open_at(l, find_open_from(l, q)),
        forall|j: int| find_open_from(l, q) < j <= q ==> !author_open_at(l, j),
    decreases q,
{
    if q >= 1 && !author_open_at(l, q) {
        lemma_find_open_from(l, q - 1);
    }
}

/// Where the author suffix of `l` opens, or `-1` when it has none.
pub open spec fn title_author_open_idx(l: Seq<char>) -> int {
    find_open_from(l, l.len() - 2)
}

/// The line ends with `)` and a parenthesis preceded by whitespace opens the
/// suffix.
pub open spec fn has_author_suffix(l: Seq<char>) -> bool {
    l.len() >= 1 && l[l.len() - 1] == ')' && title_author_open_idx(l) >= 0
}

/// What the title line yields: the title text, and the author interior when
/// the line carries a trailing parenthesized suffix.  The suffix opens at the
/// rightmost `(` that is preceded by whitespace; the preceding text, with its
/// trailing whitespace removed, is the title.  A line without such a suffix
/// is all title.
pub open spec fn spec_title_author(l: Seq<char>) -> (Seq<char>, Option<Seq<char>>) {
    if has_author_suffix(l) {
        let q = title_author_open_idx(l);
        (trim_end_spec(l.take(q)), Some(l.subrange(q + 1, l.len() - 1)))
    } else {
        (l, None)
    }
}

/// Splits one title line into its title and optional author.  This never
/// fails: a line without an author suffix is returned whole as the title.
pub fn parse_title_author(line: &str) -> (r: (String, Option<String>))
    ensures
        r.0@ == spec_title_author(line@).0,
        opt_seq(r.1) == spec_title_author(line@).1,
{
    let n = line.unicode_len();
    if n >= 3 && line.get_char(n - 1) == ')' {
        let mut q: usize = n - 2;
        while q >= 1
            invariant
                0 <= q <= n - 2,
                3 <= n,
                n == line@.len(),
                line@[n - 1] == ')',
                find_open_from(line@, n - 2) == find_open_from(line@, q as int),
            decreases q,
        {
            if line.get_char(q) == '(' && space_char(line.get_char(q - 1)) {
                proof {
                    assert(author_open_at(line@, q as int));
                    assert(find_open_from(line@, q as int) == q as int);
                    assert(has_author_suffix(line@));
                }
                let tpre = line.substring_char(0, q);
                let title = trim_end_str(tpre);
                let author = line.substring_char(q + 1, n - 1);
                proof {
                    assert(line@.subrange(0, q as int) =~= line@.take(q as int));
                }
                return (title.to_owned(), Some(author.to_owned()));
            }
            proof {
                assert(!author_open_at(line@, q as int));
            }
            q = q - 1;
        }
        proof {
            assert(find_open_from(line@, 0) == -1);
            assert(!has_author_suffix(line@));
        }
        (line.to_owned(), None)
    } else {
        proof {
            if n < 3 {
                lemma_find_open_from(line@, n - 2);
                if title_author_open_idx(line@) >= 0 {
                    assert(author_open_at(line@, title_author_open_idx(line@)));
                }
            }
            assert(!has_author_suffix(line@));
        }
        (line.to_owned(), None)
    }
}

// ---------------------------------------------------------------------------
// Tokens of the action line
// ---------------------------------------------------------------------------

/// Every character is a decimal digit.
pub open spec fn all_digits(t: Seq<char>) -> bool {
    forall|j: int| 0 <= j < t.len() ==> is_digit_char(t[j])
}

/// A digit run, optionally hyphenated with a second digit run (`12`,
/// `214-215`).
pub open spec fn is_number_token(t: Seq<char>) -> bool {
    let h = first_hyphen_idx(t);
    if h >= t.len() {
        t.len() >= 1 && all_digits(t)
    } else {
        &&& 1 <= h
        &&& h + 2 <= t.len()
        &&& forall|j: int| 0 <= j < h ==> is_digit_char(t[j])
        &&& forall|j: int| h < j < t.len() ==> is_digit_char(t[j])
    }
}

/// A non-empty run of word characters.
pub open spec fn is_word_token(t: Seq<char>) -> bool {
    t.len() >= 1 && forall|j: int| 0 <= j < t.len() ==> is_word_char(t[j])
}

/// A page token: a number token (possibly a range) or a bare word token.
pub open spec fn is_page_token(t: Seq<char>) -> bool {
    is_number_token(t) || is_word_token(t)
}

/// Whether every character of `t@` in `[a, b)` is a digit.
fn all_digits_range(t: &str, a: usize, b: usize) -> (r: bool)
    requires
        a <= b <= t@.len(),
    ensures
        r == forall|j: int| a <= j < b ==> is_digit_char(t@[j]),
{
    let mut j: usize = a;
    while j < b
        invariant
            a <= j <= b <= t@.len(),
            forall|k: int| a <= k < j ==> is_digit_char(t@[k]),
        decreases b - j,
    {
        if !digit_char(t.get_char(j)) {
            return false;
        }
        j = j + 1;
    }
    true
}

/// Whether `t` is a number token.
fn number_token(t: &str) -> (b: bool)
    ensures
        b == is_number_token(t@),
{
    let n = t.unicode_len();
    let mut h: usize = 0;
    while h < n && t.get_char(h) != '-'
        invariant
            0 <= h <= n,
            n == t@.len(),
            forall|j: int| 0 <= j < h ==> t@[j] != '-',
        decreases n - h,
    {
        h = h + 1;
    }
    proof {
        lemma_first_hyphen_idx(t@);
        assert(first_hyphen_idx(t@) == h);
    }
    if h == n {
        n >= 1 && all_digits_range(t, 0, n)
    } else {
        if !(1 <= h && h <= n - 2) {
            return false;
        }
        let pre = all_digits_range(t, 0, h);
        let post = all_digits_range(t, h + 1, n);
        pre && post
    }
}

/// Whether `t` is a non-empty run of word characters.
fn word_token_check(t: &str) -> (b: bool)
    ensures
        b == is_word_token(t@),
{
    let n = t.unicode_len();
    if n == 0 {
        return false;
    }
    let mut j: usize = 0;
    while j < n
        invariant
            0 <= j <= n,
            n == t@.len(),
            forall|k: int| 0 <= k < j ==> is_word_char(t@[k]),
        decreases n - j,
    {
        if !word_char(t.get_char(j)) {
            return false;
        }
        j = j + 1;
    }
    true
}

/// Index of the first space in `t`, or its length if there is none.
fn find_first_space(t: &str) -> (i: usize)
    ensures
        i as int == first_space_idx(t@),
        i <= t@.len(),
{
    let n = t.unicode_len();
    let mut i: usize = 0;
    while i < n && t.get_char(i) != ' '
        invariant
            0 <= i <= n,
            n == t@.len(),
            forall|j: int| 0 <= j < i ==> t@[j] != ' ',
        decreases n - i,
    {
        i = i + 1;
    }
    proof {
        lemma_first_space_idx(t@);
    }
    i
}

/// Length of the longest word-character prefix of `t`.
fn word_run(t: &str) -> (i: usize)
    ensures
        i as int == word_run_len(t@),
        i <= t@.len(),
{
    let n = t.unicode_len();
    let mut i: usize = 0;
    while i < n && word_char(t.get_char(i))
        invariant
            0 <= i <= n,
            n == t@.len(),
            forall|j: int| 0 <= j < i ==> is_word_char(t@[j]),
        decreases n - i,
    {
        i = i + 1;
    }
    proof {
        lemma_word_run_len(t@);
    }
    i
}

// ---------------------------------------------------------------------------
// The action line
// ---------------------------------------------------------------------------

/// What one action line yields when it is well-formed.
pub struct ActionParts {
    pub action: Seq<char>,
    pub page: Option<Seq<char>>,
    pub location: Option<Seq<char>>,
    pub date: Seq<char>,
}

/// The action keyword: the word run after the `- Your ` marker.
pub open spec fn spec_action_keyword(l: Seq<char>) -> Seq<char> {
    l.skip(7).take(word_run_len(l.skip(7)))
}

/// The head of the action line is well-formed: the `- Your ` marker, then a
/// recognized keyword, then a single space.
pub open spec fn action_head_ok(l: Seq<char>) -> bool {
    let r1 = l.skip(7);
    let al = word_run_len(r1);
    &&& starts_with(l, "- Your "@)
    &&& al < r1.len()
    &&& r1[al] == ' '
    &&& (spec_action_keyword(l) == "Highlight"@ || spec_action_keyword(l) == "Note"@
        || spec_action_keyword(l) == "Bookmark"@)
}

/// The text after the marker, keyword and its trailing space: where the
/// page or location clause starts.
pub open spec fn spec_clause_input(l: Seq<char>) -> Seq<char> {
    let r1 = l.skip(7);
    r1.skip(word_run_len(r1) + 1)
}

/// The action line's primary clause is `on page <token>`.
pub open spec fn uses_on_page(l: Seq<char>) -> bool {
    starts_with(spec_clause_input(l), "on page "@)
}

/// The action line's primary clause is `at location <token>`.
pub open spec fn uses_at_location(l: Seq<char>) -> bool {
    starts_with(spec_clause_input(l), "at location "@)
}

/// What follows a well-formed primary clause: the optional secondary
/// `| location <token>` clause and the `| Added on <date>` tail.  Yields the
/// secondary location token, if any, and the date.
pub open spec fn spec_middle_tail(rest: Seq<char>) -> Option<(Option<Seq<char>>, Seq<char>)> {
    if starts_with(rest, "| location "@) {
        let t2 = rest.skip(11);
        let sp2 = first_space_idx(t2);
        if sp2 >= t2.len() {
            None
        } else {
            let lg = t2.take(sp2);
            if !is_number_token(lg) {
                None
            } else {
                let tail = t2.skip(sp2 + 1);
                if starts_with(tail, "| Added on "@) && tail.len() > 11 {
                    Some((Some(lg), tail.skip(11)))
                } else {
                    None
                }
            }
        }
    } else {
        if starts_with(rest, "| Added on "@) && rest.len() > 11 {
            Some((None, rest.skip(11)))
        } else {
            None
        }
    }
}

/// What one action line yields: `None` when it does not match the grammar
///
/// ```text
/// - Your <keyword> (on page <page>|at location <loc>) [| location <loc> ] | Added on <date>
/// ```
///
/// with `<keyword>` one of `Highlight`, `Note`, `Bookmark`.  A location
/// given by an `at location` primary clause takes precedence over one from
/// the secondary `| location` clause; `page` comes only from `on page`.
pub open spec fn spec_action_line(l: Seq<char>) -> Option<ActionParts> {
    if !action_head_ok(l) {
        None
    } else {
        let ci = spec_clause_input(l);
        if uses_on_page(l) {
            let t = ci.skip(8);
            let sp = first_space_idx(t);
            if sp >= t.len() {
                None
            } else {
                let tok = t.take(sp);
                if !is_page_token(tok) {
                    None
                } else {
                    match spec_middle_tail(t.skip(sp + 1)) {
                        None => None,
                        Some(md) => Some(
                            ActionParts {
                                action: spec_action_keyword(l),
                                page: Some(tok),
                                location: md.0,
                                date: md.1,
                            },
                        ),
                    }
                }
            }
        } else if uses_at_location(l) {
            let t = ci.skip(12);
            let sp = first_space_idx(t);
            if sp >= t.len() {
                None
            } else {
                let tok = t.take(sp);
                if !is_number_token(tok) {
                    None
                } else {
                    match spec_middle_tail(t.skip(sp + 1)) {
                        None => None,
                        Some(md) => Some(
                            ActionParts {
                                action: spec_action_keyword(l),
                                page: None,
                                location: Some(tok),
                                date: md.1,
                            },
                        ),
                    }
                }
            }
        } else {
            None
        }
    }
}

/// Parses the optional `| location <token>` clause and the `| Added on `
/// tail of an action line.
fn parse_middle_tail(rest: &str) -> (r: Option<(Option<String>, String)>)
    ensures
        match r {
            Some(md) => spec_middle_tail(rest@) == Some((opt_seq(md.0), md.1@)),
            None => spec_middle_tail(rest@) is None,
        },
{
    let rn = rest.unicode_len();
    proof {
        reveal_strlit("| location ");
        reveal_strlit("| Added on ");
    }
    if str_starts_with(rest, "| location ") {
        let t2 = rest.substring_char(11, rn);
        proof {
            assert(t2@ =~= rest@.skip(11));
        }
        let t2n = t2.unicode_len();
        let sp2 = find_first_space(t2);
        if sp2 >= t2n {
            return None;
        }
        let lg = t2.substring_char(0, sp2);
        proof {
            assert(lg@ =~= t2@.take(sp2 as int));
        }
        if !number_token(lg) {
            return None;
        }
        let tail = t2.substring_char(sp2 + 1, t2n);
        proof {
            assert(tail@ =~= t2@.skip(sp2 + 1));
        }
        if str_starts_with(tail, "| Added on ") {
            let tailn = tail.unicode_len();
            if tailn > 11 {
                let date = tail.substring_char(11, tailn);
                proof {
                    assert(date@ =~= tail@.skip(11));
                }
                return Some((Some(lg.to_owned()), date.to_owned()));
            }
        }
        None
    } else {
        if str_starts_with(rest, "| Added on ") && rn > 11 {
            let date = rest.substring_char(11, rn);
            proof {
                assert(date@ =~= rest@.skip(11));
            }
            Some((None, date.to_owned()))
        } else {
            None
        }
    }
}

/// Parses one action line into its keyword, optional page, optional
/// location and date.  A line that does not match the grammar — including
/// one whose keyword is not `Highlight`, `Note` or `Bookmark` — is rejected
/// whole, never guessed at.
pub fn parse_action_line(line: &str) -> (r: Result<
    (String, Option<String>, Option<String>, String),
    ParsingError,
>)
    ensures
        match r {
            Ok(t) => spec_action_line(line@) == Some(
                (ActionParts {
                    action: t.0@,
                    page: opt_seq(t.1),
                    location: opt_seq(t.2),
                    date: t.3@,
                }),
            ),
            Err(e) => spec_action_line(line@) is None && e@
                == ParseErrorModel::MalformedActionLine(line@),
        },
{
    let n = line.unicode_len();
    proof {
        reveal_strlit("- Your ");
        reveal_strlit("on page ");
        reveal_strlit("at location ");
    }
    if !str_starts_with(line, "- Your ") {
        return Err(ParsingError::MalformedActionLine(line.to_owned()));
    }
    let r1 = line.substring_char(7, n);
    proof {
        assert(r1@ =~= line@.skip(7));
    }
    let r1n = r1.unicode_len();
    let al = word_run(r1);
    let action_s = r1.substring_char(0, al);
    proof {
        assert(action_s@ =~= spec_action_keyword(line@));
    }
    let is_known = str_eq(action_s, "Highlight") || str_eq(action_s, "Note") || str_eq(
        action_s,
        "Bookmark",
    );
    if !is_known {
        return Err(ParsingError::MalformedActionLine(line.to_owned()));
    }
    if al >= r1n || r1.get_char(al) != ' ' {
        return Err(ParsingError::MalformedActionLine(line.to_owned()));
    }
    let r3 = r1.substring_char(al + 1, r1n);
    proof {
        assert(r3@ =~= spec_clause_input(line@));
        assert(action_head_ok(line@));
    }
    let r3n = r3.unicode_len();
    if str_starts_with(r3, "on page ") {
        let t = r3.substring_char(8, r3n);
        proof {
            assert(t@ =~= spec_clause_input(line@).skip(8));
        }
        let tn = t.unicode_len();
        let sp = find_first_space(t);
        if sp >= tn {
            return Err(ParsingError::MalformedActionLine(line.to_owned()));
        }
        let tok = t.substring_char(0, sp);
        proof {
            assert(tok@ =~= t@.take(sp as int));
        }
        if !(number_token(tok) || word_token_check(tok)) {
            return Err(ParsingError::MalformedActionLine(line.to_owned()));
        }
        let rest = t.substring_char(sp + 1, tn);
        proof {
            assert(rest@ =~= t@.skip(sp + 1));
        }
        match parse_middle_tail(rest) {
            None => Err(ParsingError::MalformedActionLine(line.to_owned())),
            Some(md) => {
                let (sec, date) = md;
                Ok((action_s.to_owned(), Some(tok.to_owned()), sec, date))
            },
        }
    } else if str_starts_with(r3, "at location ") {
        let t = r3.substring_char(12, r3n);
        proof {
            assert(t@ =~= spec_clause_input(line@).skip(12));
        }
        let tn = t.unicode_len();
        let sp = find_first_space(t);
        if sp >= tn {
            return Err(ParsingError::MalformedActionLine(line.to_owned()));
        }
        let tok = t.substring_char(0, sp);
        proof {
            assert(tok@ =~= t@.take(sp as int));
        }
        if !number_token(tok) {
            return Err(ParsingError::MalformedActionLine(line.to_owned()));
        }
        let rest = t.substring_char(sp + 1, tn);
        proof {
            assert(rest@ =~= t@.skip(sp + 1));
        }
        match parse_middle_tail(rest) {
            None => Err(ParsingError::MalformedActionLine(line.to_owned())),
            Some(md) => {
                let (_sec, date) = md;
                Ok((action_s.to_owned(), None, Some(tok.to_owned()), date))
            },
        }
    } else {
        Err(ParsingError::MalformedActionLine(line.to_owned()))
    }
}

// ---------------------------------------------------------------------------
// Block segmentation
// ---------------------------------------------------------------------------

/// Index of the first separator line at or after `j`, or `ls.len()`.
pub open spec fn body_end(ls: Seq<Seq<char>>, j: int) -> int
    decreases ls.len() - j,
{
    if j >= ls.len() || is_separator_line(ls[j]) {
        j
    } else {
        body_end(ls, j + 1)
    }
}

pub proof fn lemma_body_end(ls: Seq<Seq<char>>, j: int)
    requires
        j <= ls.len(),
    ensures
        j <= body_end(ls, j) <= ls.len(),
        body_end(ls, j) == ls.len() || is_separator_line(ls[body_end(ls, j)]),
        forall|k: int| j <= k < body_end(ls, j) ==> !is_separator_line(ls[k]),
    decreases ls.len() - j,
{
    if j < ls.len() && !is_separator_line(ls[j]) {
        lemma_body_end(ls, j + 1);
    }
}

/// The record one block yields: the split title line, the action line's
/// parts, and — for highlights and notes only — the body lines joined by
/// single spaces and trimmed.
pub open spec fn spec_block_entry(
    title_line: Seq<char>,
    parts: ActionParts,
    body: Seq<Seq<char>>,
) -> EntryModel {
    EntryModel {
        title: spec_title_author(title_line).0,
        author: spec_title_author(title_line).1,
        action: parts.action,
        page: parts.page,
        location: parts.location,
        date: parts.date,
        content: if parts.action == "Highlight"@ || parts.action == "Note"@ {
            Some(trim_spec(join_space(body)))
        } else {
            None
        },
    }
}

/// What parsing the line stream from index `i` on yields: the records of
/// the remaining blocks in order, or the first failure.  Separator lines
/// are skipped; a lone title line at the end of the stream is a truncated
/// block; each block's body runs to the next separator or the end.
pub open spec fn spec_parse_from(ls: Seq<Seq<char>>, i: int) -> Result<
    Seq<EntryModel>,
    ParseErrorModel,
>
    decreases ls.len() - i,
    via spec_parse_from_dec
{
    if i >= ls.len() {
        Ok(Seq::empty())
    } else if is_separator_line(ls[i]) {
        spec_parse_from(ls, i + 1)
    } else if i + 1 >= ls.len() {
        Err(ParseErrorModel::TruncatedBlock)
    } else {
        match spec_action_line(ls[i + 1]) {
            None => Err(ParseErrorModel::MalformedActionLine(ls[i + 1])),
            Some(parts) => {
                let e = body_end(ls, i + 2);
                let entry = spec_block_entry(ls[i], parts, ls.subrange(i + 2, e));
                match spec_parse_from(ls, e) {
                    Ok(rest) => Ok(seq![entry] + rest),
                    Err(er) => Err(er),
                }
            },
        }
    }
}

#[via_fn]
proof fn spec_parse_from_dec(ls: Seq<Seq<char>>, i: int) {
    if i + 2 <= ls.len() {
        lemma_body_end(ls, i + 2);
    }
}

/// What parsing a whole file yields: its trimmed lines parsed from the
/// start.
pub open spec fn spec_parse(content: Seq<char>) -> Result<Seq<EntryModel>, ParseErrorModel> {
    spec_parse_from(lines_of(content), 0)
}

/// The models of a sequence of entries.
pub open spec fn models_of(es: Seq<Entry>) -> Seq<EntryModel> {
    es.map_values(|e: Entry| e@)
}

/// Records already produced, followed by whatever the rest of the stream
/// yields.
pub open spec fn combine(
    done: Seq<EntryModel>,
    rest: Result<Seq<EntryModel>, ParseErrorModel>,
) -> Result<Seq<EntryModel>, ParseErrorModel> {
    match rest {
        Ok(ms) => Ok(done + ms),
        Err(e) => Err(e),
    }
}

/// Parses a whole clippings export into its entries, in source order.
/// Fails on the first malformed block, naming the offending action line,
/// and on a final block that ends before its action line.
pub fn parse_clippings(content: &str) -> (r: Result<Vec<Entry>, ParsingError>)
    ensures
        match r {
            Ok(es) => spec_parse(content@) matches Ok(ms) && es@.len() == ms.len() && (forall|
                k: int,
            | 0 <= k < ms.len() ==> #[trigger] es@[k]@ == ms[k]),
            Err(e) => spec_parse(content@) matches Err(m) && e@ == m,
        },
{
    let lines = split_trimmed_lines(content);
    let ghost ll = views_of(lines@);
    let n = lines.len();
    let mut entries: Vec<Entry> = Vec::new();
    let mut i: usize = 0;
    proof {
        assert(combine(models_of(entries@), spec_parse_from(ll, 0)) == spec_parse_from(ll, 0))
            by {
            assert(models_of(entries@) =~= Seq::<EntryModel>::empty());
            if spec_parse_from(ll, 0) is Ok {
                let ms = spec_parse_from(ll, 0)->Ok_0;
                assert(models_of(entries@) + ms =~= ms);
            }
        }
    }
    while i < n
        invariant
            0 <= i <= n,
            n == lines@.len(),
            ll == views_of(lines@),
            ll == lines_of(content@),
            ll.len() == n,
            spec_parse_from(ll, 0) == combine(models_of(entries@), spec_parse_from(ll, i as int)),
        decreases n - i,
    {
        let ghost done = models_of(entries@);
        if separator_line(lines[i].as_str()) {
            proof {
                assert(ll[i as int] == lines@[i as int]@);
                assert(spec_parse_from(ll, i as int) == spec_parse_from(ll, i + 1));
            }
            i = i + 1;
            continue ;
        }
        proof {
            assert(ll[i as int] == lines@[i as int]@);
        }
        if i + 1 >= n {
            proof {
                assert(spec_parse_from(ll, i as int) == Err::<Seq<EntryModel>, ParseErrorModel>(
                    ParseErrorModel::TruncatedBlock,
                ));
            }
            return Err(ParsingError::TruncatedBlock);
        }
        let (title, author) = parse_title_author(lines[i].as_str());
        proof {
            assert(ll[i + 1] == lines@[i + 1]@);
        }
        match parse_action_line(lines[i + 1].as_str()) {
            Err(e) => {
                proof {
                    assert(spec_parse_from(ll, i as int) == Err::<Seq<EntryModel>, ParseErrorModel>(
                        ParseErrorModel::MalformedActionLine(ll[i + 1]),
                    ));
                }
                return Err(e);
            },
            Ok(parts) => {
                let (action, page, location, date) = parts;
                let ghost pm = (ActionParts {
                    action: action@,
                    page: opt_seq(page),
                    location: opt_seq(location),
                    date: date@,
                });
                let mut j: usize = i + 2;
                while j < n && !separator_line(lines[j].as_str())
                    invariant
                        i + 2 <= j <= n,
                        n == lines@.len(),
                        ll == views_of(lines@),
                        ll.len() == n,
                        body_end(ll, i + 2) == body_end(ll, j as int),
                    decreases n - j,
                {
                    proof {
                        assert(ll[j as int] == lines@[j as int]@);
                        assert(body_end(ll, j as int) == body_end(ll, j + 1));
                    }
                    j = j + 1;
                }
                proof {
                    if j < n {
                        assert(ll[j as int] == lines@[j as int]@);
                    }
                    assert(body_end(ll, j as int) == j as int);
                }
                let ghost body = ll.subrange(i + 2, j as int);
                let is_hl = str_eq(action.as_str(), "Highlight");
                let is_note = str_eq(action.as_str(), "Note");
                let content_opt: Option<String> = if is_hl || is_note {
                    let joined = join_space_range(&lines, i + 2, j);
                    let trimmed = trim_str(joined.as_str());
                    proof {
                        assert(views_of(lines@.subrange(i + 2, j as int)) =~= body);
                    }
                    Some(trimmed.to_owned())
                } else {
                    None
                };
                let ghost em = spec_block_entry(ll[i as int], pm, body);
                let entry = Entry::new(title, author, action, page, location, date, content_opt);
                proof {
                    assert(entry@ == em);
                }
                entries.push(entry);
                proof {
                    assert(models_of(entries@) =~= done.push(em));
                    assert(spec_parse_from(ll, i as int) == combine(
                        seq![em],
                        spec_parse_from(ll, j as int),
                    )) by {
                        if spec_parse_from(ll, j as int) is Ok {
                            let rest = spec_parse_from(ll, j as int)->Ok_0;
                            assert(seq![em] + rest =~= seq![em] + rest);
                        }
                    }
                    assert(spec_parse_from(ll, 0) == combine(
                        models_of(entries@),
                        spec_parse_from(ll, j as int),
                    )) by {
                        if spec_parse_from(ll, j as int) is Ok {
                            let rest = spec_parse_from(ll, j as int)->Ok_0;
                            assert(done + (seq![em] + rest) =~= done.push(em) + rest);
                        }
                    }
                }
                i = j;
            },
        }
    }
    proof {
        assert(spec_parse_from(ll, i as int) == Ok::<Seq<EntryModel>, ParseErrorModel>(
            Seq::empty(),
        ));
        assert(models_of(entries@) + Seq::<EntryModel>::empty() =~= models_of(entries@));
    }
    Ok(entries)
}

// ---------------------------------------------------------------------------
// Laws of the parse
// ---------------------------------------------------------------------------

/// How many blocks the line stream holds from index `i` on: maximal runs of
/// non-separator lines, counted whether or not they parse.
pub open spec fn block_count_from(ls: Seq<Seq<char>>, i: int) -> int
    decreases ls.len() - i,
    via block_count_from_dec
{
    if i >= ls.len() {
        0
    } else if is_separator_line(ls[i]) {
        block_count_from(ls, i + 1)
    } else if i + 1 >= ls.len() {
        1
    } else {
        1 + block_count_from(ls, body_end(ls, i + 2))
    }
}

#[via_fn]
proof fn block_count_from_dec(ls: Seq<Seq<char>>, i: int) {
    if i + 2 <= ls.len() {
        lemma_body_end(ls, i + 2);
    }
}

proof fn lemma_parse_count_from(ls: Seq<Seq<char>>, i: int)
    ensures
        spec_parse_from(ls, i) matches Ok(ms) ==> ms.len() == block_count_from(ls, i),
    decreases ls.len() - i,
{
    if i >= ls.len() {
    } else if is_separator_line(ls[i]) {
        lemma_parse_count_from(ls, i + 1);
    } else if i + 1 >= ls.len() {
    } else {
        if spec_action_line(ls[i + 1]) is Some {
            lemma_body_end(ls, i + 2);
            lemma_parse_count_from(ls, body_end(ls, i + 2));
        }
    }
}

/// A successful parse yields exactly one record per block of the input, in
/// order: re-segmenting the source counts as many blocks as the parse
/// returned records.
pub proof fn lemma_parse_preserves_block_count(content: Seq<char>)
    ensures
        spec_parse(content) matches Ok(ms) ==> ms.len() == block_count_from(lines_of(content), 0),
{
    lemma_parse_count_from(lines_of(content), 0);
}

/// What every parsed record satisfies by construction: the action keyword
/// is one of the three recognized kinds; content is present exactly for
/// highlights and notes and never for bookmarks.
pub open spec fn entry_wellformed(m: EntryModel) -> bool {
    &&& (m.action == "Highlight"@ || m.action == "Note"@ || m.action == "Bookmark"@)
    &&& ((m.action == "Highlight"@ || m.action == "Note"@) <==> m.content is Some)
    &&& (m.action == "Bookmark"@ ==> m.content is None)
}

proof fn lemma_parse_wellformed_from(ls: Seq<Seq<char>>, i: int)
    ensures
        spec_parse_from(ls, i) matches Ok(ms) ==> forall|k: int|
            0 <= k < ms.len() ==> entry_wellformed(#[trigger] ms[k]),
    decreases ls.len() - i,
{
    reveal_strlit("Highlight");
    reveal_strlit("Note");
    reveal_strlit("Bookmark");
    if i >= ls.len() {
    } else if is_separator_line(ls[i]) {
        lemma_parse_wellformed_from(ls, i + 1);
    } else if i + 1 >= ls.len() {
    } else {
        if spec_action_line(ls[i + 1]) is Some {
            let parts = spec_action_line(ls[i + 1])->Some_0;
            lemma_body_end(ls, i + 2);
            let e = body_end(ls, i + 2);
            lemma_parse_wellformed_from(ls, e);
            if spec_parse_from(ls, e) is Ok {
                let rest = spec_parse_from(ls, e)->Ok_0;
                let em = spec_block_entry(ls[i], parts, ls.subrange(i + 2, e));
                assert(action_head_ok(ls[i + 1]));
                assert(parts.action == spec_action_keyword(ls[i + 1]));
                assert(entry_wellformed(em));
                let ms = spec_parse_from(ls, i)->Ok_0;
                assert(ms == seq![em] + rest);
                assert forall|k: int| 0 <= k < ms.len() implies entry_wellformed(
                    #[trigger] ms[k],
                ) by {
                    if k == 0 {
                        assert(ms[0] == em);
                    } else {
                        assert(ms[k] == rest[k - 1]);
                    }
                }
            }
        }
    }
}

/// Content accompanies exactly the highlight and note kinds: every record
/// of a successful parse has `content` present if and only if its action is
/// `Highlight` or `Note`, and never for `Bookmark`.
pub proof fn lemma_parse_content_rule(content: Seq<char>)
    ensures
        spec_parse(content) matches Ok(ms) ==> forall|k: int|
            0 <= k < ms.len() ==> entry_wellformed(#[trigger] ms[k]),
{
    lemma_parse_wellformed_from(lines_of(content), 0);
}

/// Where a well-formed action line's primary clause sits: the text after
/// the marker, the keyword and its trailing space.
pub open spec fn spec_after_primary(l: Seq<char>) -> Seq<char> {
    let ci = spec_clause_input(l);
    let t = if uses_on_page(l) {
        ci.skip(8)
    } else {
        ci.skip(12)
    };
    t.skip(first_space_idx(t) + 1)
}

/// The action line carries a secondary `| location` clause.
pub open spec fn has_secondary_location(l: Seq<char>) -> bool {
    starts_with(spec_after_primary(l), "| location "@)
}

/// Which of `page` and `location` a well-formed action line populates:
/// `page` exactly from an `on page` clause; `location` from an `at
/// location` primary clause or, failing that, from a secondary
/// `| location` clause; never neither.
pub proof fn lemma_page_location_rule(l: Seq<char>)
    ensures
        spec_action_line(l) matches Some(p) ==> {
            &&& (uses_on_page(l) && !has_secondary_location(l)) ==> (p.page is Some
                && p.location is None)
            &&& (uses_on_page(l) && has_secondary_location(l)) ==> (p.page is Some
                && p.location is Some)
            &&& uses_at_location(l) ==> (p.page is None && p.location is Some)
            &&& (p.page is Some || p.location is Some)
        },
{
    reveal_strlit("on page ");
    reveal_strlit("at location ");
    reveal_strlit("| location ");
    if spec_action_line(l) is Some {
        let ci = spec_clause_input(l);
        if uses_on_page(l) && uses_at_location(l) {
            assert(ci[0] == 'o' && ci[0] == 'a');
        }
    }
}

} // verus!
