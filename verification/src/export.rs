//! Template rendering of parsed entries.
//!
//! A template is plain text with placeholder tokens; [`Template::format`]
//! substitutes each token with the projection of the matching [`Entry`]
//! field in one left-to-right pass, so replacement text is never itself
//! re-scanned for tokens.  The token set is fixed: `{action}`, `{author}`,
//! `{title}` and `{content}`; anything else is copied through untouched.

use vstd::prelude::*;
use vstd::string::StrSliceExecFns;
use vstd::string::StringExecFns;

use crate::parsing::{Entry, EntryModel};
use crate::text::{starts_with, str_starts_with};

verus! {

// ---------------------------------------------------------------------------
// Field projections
// ---------------------------------------------------------------------------

/// What the `{author}` token renders as: the author text, or a fixed
/// fallback when the entry has none.
pub open spec fn author_text(e: EntryModel) -> Seq<char> {
    match e.author {
        Some(a) => a,
        None => "Unknown author"@,
    }
}

/// What the `{content}` token renders as: the content text, or nothing
/// when the entry has none.
pub open spec fn content_text(e: EntryModel) -> Seq<char> {
    match e.content {
        Some(c) => c,
        None => Seq::empty(),
    }
}

// ---------------------------------------------------------------------------
// Rendering
// ---------------------------------------------------------------------------

/// One left-to-right pass over the template: at each position the first
/// matching token is replaced by its field projection and skipped; any
/// other character is copied through.  Replacement text is never
/// re-scanned.
pub open spec fn spec_render(t: Seq<char>, e: EntryModel) -> Seq<char>
    decreases t.len(),
    via spec_render_dec
{
    if t.len() == 0 {
        Seq::empty()
    } else if starts_with(t, "{action}"@) {
        e.action + spec_render(t.skip("{action}"@.len() as int), e)
    } else if starts_with(t, "{author}"@) {
        author_text(e) + spec_render(t.skip("{author}"@.len() as int), e)
    } else if starts_with(t, "{title}"@) {
        e.title + spec_render(t.skip("{title}"@.len() as int), e)
    } else if starts_with(t, "{content}"@) {
        content_text(e) + spec_render(t.skip("{content}"@.len() as int), e)
    } else {
        seq![t[0]] + spec_render(t.skip(1), e)
    }
}

#[via_fn]
proof fn spec_render_dec(t: Seq<char>, e: EntryModel) {
    reveal_strlit("{action}");
    reveal_strlit("{author}");
    reveal_strlit("{title}");
    reveal_strlit("{content}");
}

/// Renders `t` for `entry` in one pass.
fn render_str(t: &str, entry: &Entry) -> (r: String)
    ensures
        r@ == spec_render(t@, entry@),
{
    let n = t.unicode_len();
    let mut out = String::new();
    let mut i: usize = 0;
    proof {
        reveal_strlit("{action}");
        reveal_strlit("{author}");
        reveal_strlit("{title}");
        reveal_strlit("{content}");
        reveal_strlit("Unknown author");
        assert(t@.skip(0) =~= t@);
        assert(out@ + spec_render(t@.skip(0), entry@) =~= spec_render(t@, entry@));
    }
    while i < n
        invariant
            0 <= i <= n,
            n == t@.len(),
            spec_render(t@, entry@) == out@ + spec_render(t@.skip(i as int), entry@),
            "{action}"@.len() == 8,
            "{author}"@.len() == 8,
            "{title}"@.len() == 7,
            "{content}"@.len() == 9,
        decreases n - i,
    {
        let ghost rem = t@.skip(i as int);
        let ghost before = out@;
        let sub = t.substring_char(i, n);
        proof {
            assert(sub@ =~= rem);
        }
        if str_starts_with(sub, "{action}") {
            let a = entry.action();
            out.append(a.as_str());
            proof {
                assert(rem.skip(8) =~= t@.skip(i + 8));
                assert((before + entry@.action) + spec_render(t@.skip(i + 8), entry@) =~= before
                    + (entry@.action + spec_render(t@.skip(i + 8), entry@)));
            }
            i = i + 8;
        } else if str_starts_with(sub, "{author}") {
            match entry.author() {
                Some(a) => out.append(a.as_str()),
                None => out.append("Unknown author"),
            }
            proof {
                assert(rem.skip(8) =~= t@.skip(i + 8));
                assert((before + author_text(entry@)) + spec_render(t@.skip(i + 8), entry@)
                    =~= before + (author_text(entry@) + spec_render(t@.skip(i + 8), entry@)));
            }
            i = i + 8;
        } else if str_starts_with(sub, "{title}") {
            let a = entry.title();
            out.append(a.as_str());
            proof {
                assert(rem.skip(7) =~= t@.skip(i + 7));
                assert((before + entry@.title) + spec_render(t@.skip(i + 7), entry@) =~= before
                    + (entry@.title + spec_render(t@.skip(i + 7), entry@)));
            }
            i = i + 7;
        } else if str_starts_with(sub, "{content}") {
            match entry.content() {
                Some(c) => out.append(c.as_str()),
                None => (),
            }
            proof {
                assert(rem.skip(9) =~= t@.skip(i + 9));
                assert(before + content_text(entry@) =~= out@);
                assert((before + content_text(entry@)) + spec_render(t@.skip(i + 9), entry@)
                    =~= before + (content_text(entry@) + spec_render(t@.skip(i + 9), entry@)));
            }
            i = i + 9;
        } else {
            let c = t.substring_char(i, i + 1);
            out.append(c);
            proof {
                assert(c@ =~= seq![t@[i as int]]);
                assert(rem[0] == t@[i as int]);
                assert(rem.skip(1) =~= t@.skip(i + 1));
                assert((before + seq![t@[i as int]]) + spec_render(t@.skip(i + 1), entry@)
                    =~= before + (seq![t@[i as int]] + spec_render(t@.skip(i + 1), entry@)));
            }
            i = i + 1;
        }
    }
    proof {
        assert(t@.skip(n as int).len() == 0);
        assert(out@ + spec_render(t@.skip(n as int), entry@) =~= out@);
    }
    out
}

// ---------------------------------------------------------------------------
// Templates
// ---------------------------------------------------------------------------

/// A render template: text with `{action}`, `{author}`, `{title}` and
/// `{content}` tokens.
pub struct Template {
    template: String,
}

impl View for Template {
    type V = Seq<char>;

    closed spec fn view(&self) -> Seq<char> {
        self.template@
    }
}

impl Template {
    /// The template's text.
    pub fn template(&self) -> (r: String)
        ensures
            r@ == self@,
    {
        self.template.clone()
    }

    /// A template with the given text.
    pub fn with_text(template: String) -> (t: Template)
        ensures
            t@ == template@,
    {
        Template { template }
    }

    /// The export template: the content above the author and title.
    pub fn new() -> (t: Template)
        ensures
            t@ == "{content}\n\n*{author} - {title}*"@,
    {
        Template { template: String::from_str("{content}\n\n*{author} - {title}*") }
    }

    /// Renders `entry` through this template.
    pub fn format(self, entry: Entry) -> (r: String)
        ensures
            r@ == spec_render(self@, entry@),
    {
        render_str(self.template.as_str(), &entry)
    }
}

impl Default for Template {
    /// The listing template: the action, author and title above the
    /// content.
    fn default() -> (t: Template)
        ensures
            t@ == "[{action}] Author: {author}, Title: {title}\n{content}"@,
    {
        Template { template: String::from_str("[{action}] Author: {author}, Title: {title}\n{content}") }
    }
}

/// Renders `e` through the export template.
pub fn export_entry(e: Entry) -> (r: String)
    ensures
        r@ == spec_render("{content}\n\n*{author} - {title}*"@, e@),
{
    Template::new().format(e)
}

// ---------------------------------------------------------------------------
// Laws of rendering
// ---------------------------------------------------------------------------

/// `p` occurs in `t` at position `i`.
pub open spec fn occurs_at(t: Seq<char>, p: Seq<char>, i: int) -> bool {
    0 <= i <= t.len() - p.len() && starts_with(t.skip(i), p)
}

/// `p` occurs somewhere in `t`.
pub open spec fn has_token(t: Seq<char>, p: Seq<char>) -> bool {
    exists|i: int| occurs_at(t, p, i)
}

/// `t` holds at least one recognized placeholder token.
pub open spec fn has_any_token(t: Seq<char>) -> bool {
    ||| has_token(t, "{action}"@)
    ||| has_token(t, "{author}"@)
    ||| has_token(t, "{title}"@)
    ||| has_token(t, "{content}"@)
}

/// A token occurring past the head of `t` occurs in `t`.
proof fn lemma_token_shift(t: Seq<char>, p: Seq<char>)
    requires
        t.len() > 0,
        has_token(t.drop_first(), p),
    ensures
        has_token(t, p),
{
    let i = choose|i: int| occurs_at(t.drop_first(), p, i);
    assert(t.drop_first().skip(i) =~= t.skip(i + 1));
    assert(occurs_at(t, p, i + 1));
}

/// Rendering a template that holds no recognized token returns it
/// unchanged, whatever the entry.
pub proof fn lemma_render_no_tokens(t: Seq<char>, e: EntryModel)
    requires
        !has_any_token(t),
    ensures
        spec_render(t, e) == t,
    decreases t.len(),
{
    reveal_strlit("{action}");
    reveal_strlit("{author}");
    reveal_strlit("{title}");
    reveal_strlit("{content}");
    if t.len() == 0 {
        assert(spec_render(t, e) =~= t);
    } else {
        if starts_with(t, "{action}"@) {
            assert(t.skip(0) =~= t);
            assert(occurs_at(t, "{action}"@, 0));
        }
        if starts_with(t, "{author}"@) {
            assert(t.skip(0) =~= t);
            assert(occurs_at(t, "{author}"@, 0));
        }
        if starts_with(t, "{title}"@) {
            assert(t.skip(0) =~= t);
            assert(occurs_at(t, "{title}"@, 0));
        }
        if starts_with(t, "{content}"@) {
            assert(t.skip(0) =~= t);
            assert(occurs_at(t, "{content}"@, 0));
        }
        if has_token(t.drop_first(), "{action}"@) {
            lemma_token_shift(t, "{action}"@);
        }
        if has_token(t.drop_first(), "{author}"@) {
            lemma_token_shift(t, "{author}"@);
        }
        if has_token(t.drop_first(), "{title}"@) {
            lemma_token_shift(t, "{title}"@);
        }
        if has_token(t.drop_first(), "{content}"@) {
            lemma_token_shift(t, "{content}"@);
        }
        lemma_render_no_tokens(t.drop_first(), e);
        assert(t.skip(1) =~= t.drop_first());
        assert(spec_render(t, e) == seq![t[0]] + t.drop_first());
        assert(seq![t[0]] + t.drop_first() =~= t);
    }
}

} // verus!
