//! Self-contained HTML pages in the dark theme shared by every view.
use vstd::prelude::*;
use crate::text::{chars_of, push_char, push_str, to_owned_string};

verus! {

/// The page text before the title.
pub const DOC_HEAD: &'static str = "<!DOCTYPE html>\n<html lang=\"en\">\n<head>\n<meta charset=\"utf-8\">\n<meta name=\"viewport\" content=\"width=device-width, initial-scale=1\">\n<title>";

/// The page text between the title and the page's own style rules.
pub const DOC_STYLE: &'static str = "</title>\n<style>\n* { margin: 0; padding: 0; box-sizing: border-box; }\nbody { font-family: -apple-system, BlinkMacSystemFont, 'Segoe UI', system-ui, sans-serif; background: #0d1117; color: #c9d1d9; padding: 2rem; }\nh1 { color: #f0f6fc; margin-bottom: 0.5rem; }\nh2 { color: #8b949e; font-weight: 400; font-size: 1rem; margin-bottom: 2rem; }\na { color: #58a6ff; text-decoration: none; }\na:hover { text-decoration: underline; }\n";

/// The page text between the style rules and the body.
pub const DOC_BODY: &'static str = "\n</style>\n</head>\n<body>\n";

/// The page text after the body.
pub const DOC_TAIL: &'static str = "\n</body>\n</html>";

/// A complete page: the shared head and base styles, the page's own
/// styles, and the body.
pub open spec fn document_spec(title: Seq<char>, css: Seq<char>, body: Seq<char>) -> Seq<char> {
    DOC_HEAD@ + title + DOC_STYLE@ + css + DOC_BODY@ + body + DOC_TAIL@
}

/// Wraps body content in a complete HTML document with inline styles.
pub fn document(title: &str, css: &str, body: &str) -> (r: String)
    ensures
        r@ == document_spec(title@, css@, body@),
{
    let mut r = to_owned_string(DOC_HEAD);
    push_str(&mut r, title);
    push_str(&mut r, DOC_STYLE);
    push_str(&mut r, css);
    push_str(&mut r, DOC_BODY);
    push_str(&mut r, body);
    push_str(&mut r, DOC_TAIL);
    r
}

/// One character escaped for HTML.
pub open spec fn html_char(c: char) -> Seq<char> {
    if c == '&' {
        "&amp;"@
    } else if c == '<' {
        "&lt;"@
    } else if c == '>' {
        "&gt;"@
    } else if c == '"' {
        "&quot;"@
    } else {
        seq![c]
    }
}

/// A string with `&`, `<`, `>` and `"` escaped for HTML.
pub open spec fn escape_spec(s: Seq<char>) -> Seq<char>
    decreases s.len(),
{
    if s.len() == 0 {
        Seq::empty()
    } else {
        escape_spec(s.drop_last()) + html_char(s.last())
    }
}

/// Escapes the HTML special characters of a string.
pub fn escape(s: &str) -> (r: String)
    ensures
        r@ == escape_spec(s@),
{
    let cs = chars_of(s);
    let mut r = String::new();
    let mut i: usize = 0;
    assert(r@ =~= escape_spec(s@.subrange(0, 0)));
    while i < cs.len()
        invariant
            cs@ == s@,
            i <= cs@.len(),
            r@ == escape_spec(s@.subrange(0, i as int)),
        decreases cs@.len() - i,
    {
        let ghost nxt = s@.subrange(0, i + 1);
        assert(nxt.drop_last() =~= s@.subrange(0, i as int));
        let c = cs[i];
        assert(nxt.last() == c);
        let ghost before = r@;
        if c == '&' {
            push_str(&mut r, "&amp;");
        } else if c == '<' {
            push_str(&mut r, "&lt;");
        } else if c == '>' {
            push_str(&mut r, "&gt;");
        } else if c == '"' {
            push_str(&mut r, "&quot;");
        } else {
            push_char(&mut r, c);
        }
        assert(r@ =~= before + html_char(c));
        i = i + 1;
    }
    assert(s@.subrange(0, s@.len() as int) =~= s@);
    r
}


/// Escaped text holds no raw `<`, `>` or `"`: it cannot open or close a
/// tag or an attribute value.
pub proof fn law_escape_no_markup(s: Seq<char>)
    ensures
        forall|i: int| 0 <= i < escape_spec(s).len() ==> {
            let c = #[trigger] escape_spec(s)[i];
            c != '<' && c != '>' && c != '"'
        },
    decreases s.len(),
{
    reveal_strlit("&amp;");
    reveal_strlit("&lt;");
    reveal_strlit("&gt;");
    reveal_strlit("&quot;");
    if s.len() > 0 {
        law_escape_no_markup(s.drop_last());
        let a = escape_spec(s.drop_last());
        let b = html_char(s.last());
        assert forall|i: int| 0 <= i < (a + b).len() implies {
            let c = #[trigger] (a + b)[i];
            c != '<' && c != '>' && c != '"'
        } by {
            if i >= a.len() {
                assert((a + b)[i] == b[i - a.len()]);
            } else {
                assert((a + b)[i] == a[i]);
            }
        }
    }
}

/// Text without any of `&`, `<`, `>` and `"` is left as it is.
pub proof fn law_escape_plain(s: Seq<char>)
    requires
        forall|i: int| 0 <= i < s.len() ==> s[i] != '&' && s[i] != '<' && s[i] != '>' && s[i] != '"',
    ensures
        escape_spec(s) == s,
    decreases s.len(),
{
    if s.len() > 0 {
        law_escape_plain(s.drop_last());
        assert(s.drop_last().push(s.last()) =~= s);
    }
}

} // verus!
