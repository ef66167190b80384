//! Character-level text utilities shared by the parser and the renderer.
//!
//! Everything here is stated over `Seq<char>` views of `&str` / `String`
//! values: character classes, index finders, trimming, prefix tests,
//! substring search, line splitting and joining.

use vstd::prelude::*;
use vstd::string::StrSliceExecFns;

verus! {

// ---------------------------------------------------------------------------
// Character classes
// ---------------------------------------------------------------------------

/// ASCII whitespace, the class the line normalizer strips.
pub open spec fn is_space_char(c: char) -> bool {
    c == ' ' || c == '\t' || c == '\n' || c == '\r' || c == '\u{b}' || c == '\u{c}'
}

/// ASCII decimal digit.
pub open spec fn is_digit_char(c: char) -> bool {
    48 <= c as u32 && c as u32 <= 57
}

/// ASCII word character: a letter, a digit, or an underscore.
pub open spec fn is_word_char(c: char) -> bool {
    is_digit_char(c) || (65 <= c as u32 && c as u32 <= 90) || (97 <= c as u32 && c as u32 <= 122)
        || c == '_'
}

pub fn space_char(c: char) -> (b: bool)
    ensures
        b == is_space_char(c),
{
    c == ' ' || c == '\t' || c == '\n' || c == '\r' || c == '\u{b}' || c == '\u{c}'
}

pub fn digit_char(c: char) -> (b: bool)
    ensures
        b == is_digit_char(c),
{
    let u = c as u32;
    48 <= u && u <= 57
}

pub fn word_char(c: char) -> (b: bool)
    ensures
        b == is_word_char(c),
{
    let u = c as u32;
    (48 <= u && u <= 57) || (65 <= u && u <= 90) || (97 <= u && u <= 122) || c == '_'
}

// ---------------------------------------------------------------------------
// Index finders
// ---------------------------------------------------------------------------

/// Index of the first `'\n'` in `s`, or `s.len()` if there is none.
pub open spec fn first_nl_idx(s: Seq<char>) -> int
    decreases s.len(),
{
    if s.len() == 0 {
        0
    } else if s[0] == '\n' {
        0
    } else {
        1 + first_nl_idx(s.drop_first())
    }
}

pub proof fn lemma_first_nl_idx(s: Seq<char>)
    ensures
        0 <= first_nl_idx(s) <= s.len(),
        forall|j: int| 0 <= j < first_nl_idx(s) ==> s[j] != '\n',
        first_nl_idx(s) < s.len() ==> s[first_nl_idx(s)] == '\n',
    decreases s.len(),
{
    if s.len() > 0 && s[0] != '\n' {
        lemma_first_nl_idx(s.drop_first());
        assert forall|j: int| 0 <= j < first_nl_idx(s) implies s[j] != '\n' by {
            if j > 0 {
                assert(s.drop_first()[j - 1] == s[j]);
            }
        }
        if first_nl_idx(s) < s.len() {
            assert(s.drop_first()[first_nl_idx(s) - 1] == s[first_nl_idx(s)]);
        }
    }
}

/// Index of the first `' '` in `s`, or `s.len()` if there is none.
pub open spec fn first_space_idx(s: Seq<char>) -> int
    decreases s.len(),
{
    if s.len() == 0 {
        0
    } else if s[0] == ' ' {
        0
    } else {
        1 + first_space_idx(s.drop_first())
    }
}

pub proof fn lemma_first_space_idx(s: Seq<char>)
    ensures
        0 <= first_space_idx(s) <= s.len(),
        forall|j: int| 0 <= j < first_space_idx(s) ==> s[j] != ' ',
        first_space_idx(s) < s.len() ==> s[first_space_idx(s)] == ' ',
    decreases s.len(),
{
    if s.len() > 0 && s[0] != ' ' {
        lemma_first_space_idx(s.drop_first());
        assert forall|j: int| 0 <= j < first_space_idx(s) implies s[j] != ' ' by {
            if j > 0 {
                assert(s.drop_first()[j - 1] == s[j]);
            }
        }
        if first_space_idx(s) < s.len() {
            assert(s.drop_first()[first_space_idx(s) - 1] == s[first_space_idx(s)]);
        }
    }
}

/// Index of the first `'-'` in `s`, or `s.len()` if there is none.
pub open spec fn first_hyphen_idx(s: Seq<char>) -> int
    decreases s.len(),
{
    if s.len() == 0 {
        0
    } else if s[0] == '-' {
        0
    } else {
        1 + first_hyphen_idx(s.drop_first())
    }
}

pub proof fn lemma_first_hyphen_idx(s: Seq<char>)
    ensures
        0 <= first_hyphen_idx(s) <= s.len(),
        forall|j: int| 0 <= j < first_hyphen_idx(s) ==> s[j] != '-',
        first_hyphen_idx(s) < s.len() ==> s[first_hyphen_idx(s)] == '-',
    decreases s.len(),
{
    if s.len() > 0 && s[0] != '-' {
        lemma_first_hyphen_idx(s.drop_first());
        assert forall|j: int| 0 <= j < first_hyphen_idx(s) implies s[j] != '-' by {
            if j > 0 {
                assert(s.drop_first()[j - 1] == s[j]);
            }
        }
        if first_hyphen_idx(s) < s.len() {
            assert(s.drop_first()[first_hyphen_idx(s) - 1] == s[first_hyphen_idx(s)]);
        }
    }
}

/// Length of the longest word-character prefix of `s`.
pub open spec fn word_run_len(s: Seq<char>) -> int
    decreases s.len(),
{
    if s.len() == 0 {
        0
    } else if !is_word_char(s[0]) {
        0
    } else {
        1 + word_run_len(s.drop_first())
    }
}

pub proof fn lemma_word_run_len(s: Seq<char>)
    ensures
        0 <= word_run_len(s) <= s.len(),
        forall|j: int| 0 <= j < word_run_len(s) ==> is_word_char(s[j]),
        word_run_len(s) < s.len() ==> !is_word_char(s[word_run_len(s)]),
    decreases s.len(),
{
    if s.len() > 0 && is_word_char(s[0]) {
        lemma_word_run_len(s.drop_first());
        assert forall|j: int| 0 <= j < word_run_len(s) implies is_word_char(s[j]) by {
            if j > 0 {
                assert(s.drop_first()[j - 1] == s[j]);
            }
        }
        if word_run_len(s) < s.len() {
            assert(s.drop_first()[word_run_len(s) - 1] == s[word_run_len(s)]);
        }
    }
}

/// Length of the longest whitespace prefix of `s`.
pub open spec fn leading_space_len(s: Seq<char>) -> int
    decreases s.len(),
{
    if s.len() == 0 {
        0
    } else if !is_space_char(s[0]) {
        0
    } else {
        1 + leading_space_len(s.drop_first())
    }
}

pub proof fn lemma_leading_space_len(s: Seq<char>)
    ensures
        0 <= leading_space_len(s) <= s.len(),
        forall|j: int| 0 <= j < leading_space_len(s) ==> is_space_char(s[j]),
        leading_space_len(s) < s.len() ==> !is_space_char(s[leading_space_len(s)]),
    decreases s.len(),
{
    if s.len() > 0 && is_space_char(s[0]) {
        lemma_leading_space_len(s.drop_first());
        assert forall|j: int| 0 <= j < leading_space_len(s) implies is_space_char(s[j]) by {
            if j > 0 {
                assert(s.drop_first()[j - 1] == s[j]);
            }
        }
        if leading_space_len(s) < s.len() {
            assert(s.drop_first()[leading_space_len(s) - 1] == s[leading_space_len(s)]);
        }
    }
}

// ---------------------------------------------------------------------------
// Trimming
// ---------------------------------------------------------------------------

/// `s` with its leading whitespace removed.
pub open spec fn trim_start_spec(s: Seq<char>) -> Seq<char> {
    s.skip(leading_space_len(s))
}

/// `s` with its trailing whitespace removed.
pub open spec fn trim_end_spec(s: Seq<char>) -> Seq<char>
    decreases s.len(),
{
    if s.len() > 0 && is_space_char(s.last()) {
        trim_end_spec(s.drop_last())
    } else {
        s
    }
}

/// `s` with leading and trailing whitespace removed.
pub open spec fn trim_spec(s: Seq<char>) -> Seq<char> {
    trim_end_spec(trim_start_spec(s))
}

/// A boundary `b` below which nothing trailing is whitespace characterizes
/// `trim_end_spec` as a take.
pub proof fn lemma_trim_end_take(s: Seq<char>, b: int)
    requires
        0 <= b <= s.len(),
        forall|j: int| b <= j < s.len() ==> is_space_char(s[j]),
        b > 0 ==> !is_space_char(s[b - 1]),
    ensures
        trim_end_spec(s) == s.take(b),
    decreases s.len(),
{
    if s.len() == 0 {
        assert(s.take(b) =~= s);
    } else if is_space_char(s.last()) {
        assert(b < s.len());
        lemma_trim_end_take(s.drop_last(), b);
        assert(s.drop_last().take(b) =~= s.take(b));
    } else {
        assert(b == s.len());
        assert(s.take(b) =~= s);
    }
}

/// Returns the slice of `s` with leading and trailing whitespace removed.
pub fn trim_str<'a>(s: &'a str) -> (r: &'a str)
    ensures
        r@ == trim_spec(s@),
{
    let n = s.unicode_len();
    let mut a: usize = 0;
    while a < n && space_char(s.get_char(a))
        invariant
            0 <= a <= n,
            n == s@.len(),
            forall|j: int| 0 <= j < a ==> is_space_char(s@[j]),
        decreases n - a,
    {
        a = a + 1;
    }
    let mut b: usize = n;
    while b > a && space_char(s.get_char(b - 1))
        invariant
            a <= b <= n,
            n == s@.len(),
            forall|j: int| b <= j < n ==> is_space_char(s@[j]),
        decreases b,
    {
        b = b - 1;
    }
    proof {
        lemma_leading_space_len(s@);
        assert(leading_space_len(s@) == a);
        let t = s@.skip(a as int);
        assert(forall|j: int|
            b - a <= j < t.len() ==> t[j] == s@[j + a] && is_space_char(s@[j + a]));
        lemma_trim_end_take(t, b - a);
        assert(t.take(b - a) =~= s@.subrange(a as int, b as int));
    }
    s.substring_char(a, b)
}

/// Returns the slice of `s` with only its trailing whitespace removed.
pub fn trim_end_str<'a>(s: &'a str) -> (r: &'a str)
    ensures
        r@ == trim_end_spec(s@),
{
    let n = s.unicode_len();
    let mut b: usize = n;
    while b > 0 && space_char(s.get_char(b - 1))
        invariant
            0 <= b <= n,
            n == s@.len(),
            forall|j: int| b <= j < n ==> is_space_char(s@[j]),
        decreases b,
    {
        b = b - 1;
    }
    proof {
        lemma_trim_end_take(s@, b as int);
        assert(s@.take(b as int) =~= s@.subrange(0, b as int));
    }
    s.substring_char(0, b)
}

// ---------------------------------------------------------------------------
// Prefix tests, equality, substring search
// ---------------------------------------------------------------------------

/// `p` is a prefix of `s`.
pub open spec fn starts_with(s: Seq<char>, p: Seq<char>) -> bool {
    p.len() <= s.len() && forall|j: int| 0 <= j < p.len() ==> s[j] == p[j]
}

pub fn str_starts_with(s: &str, p: &str) -> (b: bool)
    ensures
        b == starts_with(s@, p@),
{
    let sn = s.unicode_len();
    let pn = p.unicode_len();
    if pn > sn {
        return false;
    }
    let mut j: usize = 0;
    while j < pn
        invariant
            0 <= j <= pn,
            pn <= sn,
            sn == s@.len(),
            pn == p@.len(),
            forall|k: int| 0 <= k < j ==> s@[k] == p@[k],
        decreases pn - j,
    {
        if s.get_char(j) != p.get_char(j) {
            return false;
        }
        j = j + 1;
    }
    true
}

/// Character-for-character equality of two string slices.
pub fn str_eq(a: &str, b: &str) -> (r: bool)
    ensures
        r == (a@ == b@),
{
    let an = a.unicode_len();
    let bn = b.unicode_len();
    if an != bn {
        return false;
    }
    let mut j: usize = 0;
    while j < an
        invariant
            0 <= j <= an,
            an == a@.len(),
            an == b@.len(),
            forall|k: int| 0 <= k < j ==> a@[k] == b@[k],
        decreases an - j,
    {
        if a.get_char(j) != b.get_char(j) {
            return false;
        }
        j = j + 1;
    }
    proof {
        assert(a@ =~= b@);
    }
    true
}

/// `needle` occurs somewhere in `hay`.
pub open spec fn contains_seq(hay: Seq<char>, needle: Seq<char>) -> bool {
    exists|i: int| 0 <= i <= hay.len() - needle.len() && starts_with(hay.skip(i), needle)
}

pub fn str_contains(hay: &str, needle: &str) -> (r: bool)
    ensures
        r == contains_seq(hay@, needle@),
{
    let hn = hay.unicode_len();
    let nn = needle.unicode_len();
    if nn > hn {
        return false;
    }
    let mut i: usize = 0;
    while i <= hn - nn
        invariant
            0 <= i <= hn - nn + 1,
            nn <= hn,
            hn == hay@.len(),
            nn == needle@.len(),
            forall|k: int| 0 <= k < i ==> !starts_with(hay@.skip(k), needle@),
        decreases hn - nn + 1 - i,
    {
        if str_starts_with(hay.substring_char(i, hn), needle) {
            assert(hay@.subrange(i as int, hn as int) =~= hay@.skip(i as int));
            return true;
        }
        assert(hay@.subrange(i as int, hn as int) =~= hay@.skip(i as int));
        i = i + 1;
    }
    false
}

// ---------------------------------------------------------------------------
// Joining
// ---------------------------------------------------------------------------

/// The views of a sequence of strings.
pub open spec fn views_of(ls: Seq<String>) -> Seq<Seq<char>> {
    ls.map_values(|s: String| s@)
}

/// The lines joined by a single space, as `join` with a one-space separator
/// produces it.
pub open spec fn join_space(ls: Seq<Seq<char>>) -> Seq<char>
    decreases ls.len(),
{
    if ls.len() == 0 {
        Seq::empty()
    } else if ls.len() == 1 {
        ls[0]
    } else {
        ls[0] + seq![' '] + join_space(ls.drop_first())
    }
}

/// Appending one more piece extends the join at its end.
pub proof fn lemma_join_space_push(ls: Seq<Seq<char>>, x: Seq<char>)
    ensures
        join_space(ls.push(x)) == if ls.len() == 0 {
            x
        } else {
            join_space(ls) + seq![' '] + x
        },
    decreases ls.len(),
{
    let p = ls.push(x);
    if ls.len() == 0 {
        assert(p.len() == 1);
        assert(join_space(p) == p[0]);
        assert(p[0] == x);
    } else if ls.len() == 1 {
        assert(p.len() == 2);
        assert(p.drop_first() =~= seq![x]);
        assert(join_space(p.drop_first()) == x);
        assert(p[0] == ls[0]);
        assert(join_space(ls) == ls[0]);
    } else {
        lemma_join_space_push(ls.drop_first(), x);
        assert(p.drop_first() =~= ls.drop_first().push(x));
        assert(p[0] == ls[0]);
    }
}

/// Joins `lines[from..to]` with single spaces.
pub fn join_space_range(lines: &Vec<String>, from: usize, to: usize) -> (r: String)
    requires
        from <= to <= lines@.len(),
    ensures
        r@ == join_space(views_of(lines@.subrange(from as int, to as int))),
{
    let mut r = String::new();
    let mut k: usize = from;
    proof {
        assert(lines@.subrange(from as int, from as int) =~= Seq::<String>::empty());
        assert(views_of(Seq::<String>::empty()) =~= Seq::<Seq<char>>::empty());
    }
    while k < to
        invariant
            from <= k <= to <= lines@.len(),
            r@ == join_space(views_of(lines@.subrange(from as int, k as int))),
        decreases to - k,
    {
        let ghost done = views_of(lines@.subrange(from as int, k as int));
        if k > from {
            r.append(" ");
        }
        r.append(lines[k].as_str());
        proof {
            reveal_strlit(" ");
            assert(" "@ =~= seq![' ']);
            assert(lines@.subrange(from as int, k + 1) =~= lines@.subrange(
                from as int,
                k as int,
            ).push(lines@[k as int]));
            assert(views_of(lines@.subrange(from as int, k + 1)) =~= done.push(lines@[k as int]@));
            lemma_join_space_push(done, lines@[k as int]@);
        }
        k = k + 1;
    }
    r
}

// ---------------------------------------------------------------------------
// Line splitting
// ---------------------------------------------------------------------------

/// The pieces of `s` between `'\n'` characters, with a final piece after the
/// last `'\n'` only when it is non-empty, as `str::lines` yields them.
pub open spec fn split_lines_spec(s: Seq<char>) -> Seq<Seq<char>>
    decreases s.len(),
    via split_lines_dec
{
    if s.len() == 0 {
        Seq::empty()
    } else {
        let k = first_nl_idx(s);
        if k >= s.len() {
            seq![s]
        } else {
            seq![s.take(k)] + split_lines_spec(s.skip(k + 1))
        }
    }
}

#[via_fn]
proof fn split_lines_dec(s: Seq<char>) {
    lemma_first_nl_idx(s);
}

/// The normalized line stream: each raw line trimmed of surrounding
/// whitespace.
pub open spec fn lines_of(s: Seq<char>) -> Seq<Seq<char>> {
    split_lines_spec(s).map_values(|l: Seq<char>| trim_spec(l))
}

/// Splits `s` into its lines and trims each one.
pub fn split_trimmed_lines(s: &str) -> (r: Vec<String>)
    ensures
        views_of(r@) == lines_of(s@),
{
    let n = s.unicode_len();
    let mut r: Vec<String> = Vec::new();
    let ghost mut raw: Seq<Seq<char>> = Seq::empty();
    let mut start: usize = 0;
    let mut i: usize = 0;
    proof {
        assert(s@.skip(0) =~= s@);
    }
    while i < n
        invariant
            0 <= start <= i <= n,
            n == s@.len(),
            forall|j: int| start <= j < i ==> s@[j] != '\n',
            split_lines_spec(s@) == raw + split_lines_spec(s@.skip(start as int)),
            r@.len() == raw.len(),
            forall|k: int| 0 <= k < raw.len() ==> #[trigger] r@[k]@ == trim_spec(raw[k]),
        decreases n - i,
    {
        if s.get_char(i) == '\n' {
            let piece = s.substring_char(start, i);
            let t = trim_str(piece);
            r.push(t.to_owned());
            proof {
                let rem = s@.skip(start as int);
                assert(rem.len() > 0);
                lemma_first_nl_idx(rem);
                assert(forall|j: int|
                    0 <= j < i - start ==> rem[j] == s@[j + start] && s@[j + start] != '\n');
                assert(rem[i - start] == s@[i as int]);
                assert(first_nl_idx(rem) == i - start) by {
                    let f = first_nl_idx(rem);
                    if f < i - start {
                        assert(rem[f] == '\n');
                    }
                    if f > i - start {
                        assert(rem[i - start] != '\n');
                    }
                }
                assert(split_lines_spec(rem) == seq![rem.take(i - start)] + split_lines_spec(
                    rem.skip(i - start + 1),
                ));
                assert(rem.take(i - start) =~= s@.subrange(start as int, i as int));
                assert(rem.skip(i - start + 1) =~= s@.skip(i + 1));
                raw = raw + seq![s@.subrange(start as int, i as int)];
                assert(split_lines_spec(s@) == raw + split_lines_spec(s@.skip(i + 1)));
            }
            start = i + 1;
        }
        i = i + 1;
    }
    if start < n {
        let piece = s.substring_char(start, n);
        let t = trim_str(piece);
        r.push(t.to_owned());
        proof {
            let rem = s@.skip(start as int);
            assert(rem.len() > 0);
            lemma_first_nl_idx(rem);
            assert(forall|j: int|
                0 <= j < rem.len() ==> rem[j] == s@[j + start] && s@[j + start] != '\n');
            assert(first_nl_idx(rem) == rem.len()) by {
                let f = first_nl_idx(rem);
                if f < rem.len() {
                    assert(rem[f] == '\n');
                }
            }
            assert(split_lines_spec(rem) == seq![rem]);
            assert(rem =~= s@.subrange(start as int, n as int));
            raw = raw + seq![rem];
            assert(split_lines_spec(s@) == raw + split_lines_spec(Seq::<char>::empty())) by {
                assert(seq![rem] + Seq::<Seq<char>>::empty() =~= seq![rem]);
                assert(raw + Seq::<Seq<char>>::empty() =~= raw);
            }
        }
    } else {
        proof {
            assert(s@.skip(start as int).len() == 0);
            assert(s@.skip(start as int) =~= Seq::<char>::empty());
        }
    }
    proof {
        assert(split_lines_spec(s@) =~= raw) by {
            assert(split_lines_spec(Seq::<char>::empty()).len() == 0);
            assert(raw + split_lines_spec(Seq::<char>::empty()) =~= raw);
        }
        assert(views_of(r@) =~= lines_of(s@));
    }
    r
}

} // verus!
