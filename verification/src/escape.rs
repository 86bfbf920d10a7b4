//! Escaping of the four characters that are significant in HTML.

use vstd::prelude::*;

verus! {

/// The characters that never appear in sanitized text.
pub open spec fn is_markup(c: char) -> bool {
    c == '<' || c == '>' || c == '"' || c == '\''
}

/// What a single character turns into: its entity reference if it is markup,
/// itself otherwise.
pub open spec fn escape_char(c: char) -> Seq<char> {
    if c == '<' {
        seq!['&', 'l', 't', ';']
    } else if c == '>' {
        seq!['&', 'g', 't', ';']
    } else if c == '"' {
        seq!['&', 'q', 'u', 'o', 't', ';']
    } else if c == '\'' {
        seq!['&', '#', '0', '3', '9', ';']
    } else {
        seq![c]
    }
}

/// Sanitized text: every character replaced by `escape_char` of it, in order.
pub open spec fn sanitize(s: Seq<char>) -> Seq<char>
    decreases s.len(),
{
    if s.len() == 0 {
        Seq::empty()
    } else {
        sanitize(s.drop_last()) + escape_char(s.last())
    }
}

/// Text without any markup character.
pub open spec fn is_clean(s: Seq<char>) -> bool {
    forall|i: int| 0 <= i < s.len() ==> !is_markup(#[trigger] s[i])
}

/// Sanitizing never shortens text, so what is not empty stays so.
pub proof fn lemma_sanitize_nonempty(s: Seq<char>)
    ensures
        sanitize(s).len() >= s.len(),
    decreases s.len(),
{
    if s.len() > 0 {
        lemma_sanitize_nonempty(s.drop_last());
    }
}

/// Sanitized text holds no markup character.
pub proof fn lemma_sanitize_is_clean(s: Seq<char>)
    ensures
        is_clean(sanitize(s)),
    decreases s.len(),
{
    if s.len() > 0 {
        lemma_sanitize_is_clean(s.drop_last());
    }
}

/// Clean text is left as it is.
pub proof fn lemma_sanitize_clean_is_identity(s: Seq<char>)
    requires
        is_clean(s),
    ensures
        sanitize(s) == s,
    decreases s.len(),
{
    if s.len() > 0 {
        lemma_sanitize_clean_is_identity(s.drop_last());
        assert(!is_markup(s[s.len() - 1]));
        assert(s.drop_last() + seq![s.last()] =~= s);
    }
}

/// Sanitizing twice gives what sanitizing once gives.
pub proof fn lemma_sanitize_idempotent(s: Seq<char>)
    ensures
        sanitize(sanitize(s)) == sanitize(s),
{
    lemma_sanitize_is_clean(s);
    lemma_sanitize_clean_is_identity(sanitize(s));
}

/// Clean text stays clean when two pieces of it are joined.
pub proof fn lemma_clean_concat(a: Seq<char>, b: Seq<char>)
    ensures
        is_clean(a + b) <==> is_clean(a) && is_clean(b),
{
    if is_clean(a + b) {
        assert forall|i: int| 0 <= i < a.len() implies !is_markup(#[trigger] a[i]) by {
            assert((a + b)[i] == a[i]);
        }
        assert forall|i: int| 0 <= i < b.len() implies !is_markup(#[trigger] b[i]) by {
            assert((a + b)[a.len() + i] == b[i]);
        }
    }
}

/// Returns `text` with `<`, `>`, `"` and `'` replaced by `&lt;`, `&gt;`,
/// `&quot;` and `&#039;`.
pub fn sanitize_text(text: &str) -> (out: String)
    ensures
        out@ == sanitize(text@),
        is_clean(out@),
{
    let mut out = String::new();
    for c in it: text.chars()
        invariant
            it.seq() == text@,
            out@ == sanitize(text@.take(it.index())),
    {
        proof {
            reveal_strlit("&lt;");
            reveal_strlit("&gt;");
            reveal_strlit("&quot;");
            reveal_strlit("&#039;");
            let i = it.index();
            assert(text@.take(i + 1).drop_last() =~= text@.take(i));
            assert(text@.take(i + 1).last() == c);
        }
        if c == '<' {
            out.append("&lt;");
        } else if c == '>' {
            out.append("&gt;");
        } else if c == '"' {
            out.append("&quot;");
        } else if c == '\'' {
            out.append("&#039;");
        } else {
            out.push(c);
        }
        assert(out@ =~= sanitize(text@.take(it.index() + 1)));
    }
    proof {
        assert(text@.take(text@.len() as int) =~= text@);
        lemma_sanitize_is_clean(text@);
    }
    out
}

} // verus!
