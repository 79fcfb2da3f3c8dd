//! Query planning and the native filters.  An expression is the identity,
//! a plain jq program, or a pipe chain holding native filters such as
//! `find_blocks("resource")`; native segments run here, jq segments run in
//! the jq engine.
use vstd::prelude::*;
use crate::error::Error;
use crate::text::{join_spec, chars_of, is_prefix, is_suffix, push_str, starts_with, ends_with, str_eq, string_from_range, strings_view, to_owned_string, trim, trim_spec};
use crate::value::{Value, Val, Block, blocks_of, block_refs_view, clone_block, view_values};

verus! {

// ── Scanning for native filters ────────────────────────────────────

/// Whether `find_blocks(` starts at `i` of `s`.
pub open spec fn native_at(s: Seq<char>, i: int) -> bool {
    is_prefix("find_blocks("@, s.subrange(i, s.len() as int))
}

/// Whether a native filter starts at or after `i`, outside string
/// literals, given the scanner's state at `i`.
pub open spec fn native_from(s: Seq<char>, i: int, in_string: bool, escape: bool) -> bool
    decreases s.len() - i,
{
    if i < 0 || i >= s.len() {
        false
    } else if escape {
        native_from(s, i + 1, in_string, false)
    } else if s[i] == '\\' {
        native_from(s, i + 1, in_string, true)
    } else if s[i] == '"' {
        native_from(s, i + 1, !in_string, false)
    } else if in_string {
        native_from(s, i + 1, in_string, false)
    } else if native_at(s, i) {
        true
    } else {
        native_from(s, i + 1, in_string, false)
    }
}

/// Whether an expression holds a native filter outside string literals.
pub fn contains_native(expr: &str) -> (r: bool)
    ensures
        r == native_from(expr@, 0, false, false),
{
    let cs = chars_of(expr);
    let target = chars_of("find_blocks(");
    let mut in_string = false;
    let mut escape = false;
    let mut i: usize = 0;
    while i < cs.len()
        invariant
            cs@ == expr@,
            target@ == "find_blocks("@,
            i <= cs@.len(),
            native_from(expr@, 0, false, false) == native_from(expr@, i as int, in_string, escape),
        decreases cs@.len() - i,
    {
        let c = cs[i];
        if escape {
            escape = false;
        } else if c == '\\' {
            escape = true;
        } else if c == '"' {
            in_string = !in_string;
        } else if !in_string {
            let hit = crate::text::chars_match_at(cs.as_slice(), i, target.as_slice());
            assert(hit == native_at(expr@, i as int)) by {
                if i + target@.len() <= expr@.len() {
                    assert(expr@.subrange(i as int, expr@.len() as int).subrange(0, target@.len() as int) =~= expr@.subrange(i as int, i + target@.len()));
                }
            }
            if hit {
                return true;
            }
        }
        i = i + 1;
    }
    false
}

/// Pieces of `s` between top-level `|` characters, scanning from `i`
/// with the given nesting depth and string state; the current piece
/// started at `start`.
pub open spec fn split_scan(s: Seq<char>, i: int, depth: int, in_string: bool, escape: bool, start: int) -> Seq<Seq<char>>
    decreases s.len() - i,
{
    if i < 0 || i >= s.len() {
        seq![s.subrange(start, s.len() as int)]
    } else if escape {
        split_scan(s, i + 1, depth, in_string, false, start)
    } else if s[i] == '\\' {
        split_scan(s, i + 1, depth, in_string, true, start)
    } else if s[i] == '"' {
        split_scan(s, i + 1, depth, !in_string, false, start)
    } else if in_string {
        split_scan(s, i + 1, depth, in_string, false, start)
    } else if s[i] == '(' || s[i] == '[' || s[i] == '{' {
        split_scan(s, i + 1, depth + 1, in_string, false, start)
    } else if s[i] == ')' || s[i] == ']' || s[i] == '}' {
        split_scan(s, i + 1, depth - 1, in_string, false, start)
    } else if s[i] == '|' && depth == 0 {
        seq![s.subrange(start, i)] + split_scan(s, i + 1, depth, in_string, false, i + 1)
    } else {
        split_scan(s, i + 1, depth, in_string, false, start)
    }
}

/// The scanner's state before the character at `n`: bracket depth,
/// inside a string, after a backslash.  A backslash makes the next
/// character inert; a quote toggles the string; outside strings,
/// brackets open and close a level.
pub open spec fn scan_state(s: Seq<char>, n: int) -> (int, bool, bool)
    decreases n,
{
    if n <= 0 || n > s.len() {
        (0, false, false)
    } else {
        let (d, st, e) = scan_state(s, n - 1);
        let c = s[n - 1];
        if e {
            (d, st, false)
        } else if c == '\\' {
            (d, st, true)
        } else if c == '"' {
            (d, !st, false)
        } else if st {
            (d, st, false)
        } else if c == '(' || c == '[' || c == '{' {
            (d + 1, st, false)
        } else if c == ')' || c == ']' || c == '}' {
            (d - 1, st, false)
        } else {
            (d, st, false)
        }
    }
}

/// The character at `i` is a `|` at depth zero, outside strings and not
/// after a backslash.
pub open spec fn top_level_bar(s: Seq<char>, i: int) -> bool {
    &&& s[i] == '|'
    &&& scan_state(s, i).0 == 0
    &&& !scan_state(s, i).1
    &&& !scan_state(s, i).2
}

/// The number of top-level bars at or after `i`.
pub open spec fn top_level_bars(s: Seq<char>, i: int) -> nat
    decreases s.len() - i,
{
    if i < 0 || i >= s.len() {
        0
    } else {
        (if top_level_bar(s, i) { 1nat } else { 0nat }) + top_level_bars(s, i + 1)
    }
}

proof fn lemma_join_cons(a: Seq<char>, rest: Seq<Seq<char>>, sep: Seq<char>)
    requires
        rest.len() >= 1,
    ensures
        join_spec(seq![a] + rest, sep) == a + sep + join_spec(rest, sep),
    decreases rest.len(),
{
    let x = seq![a] + rest;
    if rest.len() == 1 {
        assert(x.drop_last() =~= seq![a]);
        assert(x.last() == rest[0]);
        assert(join_spec(seq![a], sep) == a);
        assert(join_spec(rest, sep) == rest[0]);
        assert(join_spec(x, sep) =~= a + sep + join_spec(rest, sep));
    } else {
        lemma_join_cons(a, rest.drop_last(), sep);
        assert(x.drop_last() =~= seq![a] + rest.drop_last());
        assert(x.last() == rest.last());
        assert(join_spec(x, sep) == join_spec(x.drop_last(), sep) + sep + x.last());
        assert(join_spec(rest, sep) == join_spec(rest.drop_last(), sep) + sep + rest.last());
        assert(join_spec(x, sep) =~= a + sep + join_spec(rest, sep));
    }
}

proof fn lemma_split_scan(s: Seq<char>, i: int, start: int)
    requires
        0 <= start <= i <= s.len(),
    ensures
        split_scan(s, i, scan_state(s, i).0, scan_state(s, i).1, scan_state(s, i).2, start).len() == 1 + top_level_bars(s, i),
        join_spec(split_scan(s, i, scan_state(s, i).0, scan_state(s, i).1, scan_state(s, i).2, start), "|"@)
            == s.subrange(start, s.len() as int),
    decreases s.len() - i,
{
    if i < s.len() {
        let (d, st, e) = scan_state(s, i);
        assert(scan_state(s, i + 1) == {
            let c = s[i];
            if e { (d, st, false) } else if c == '\\' { (d, st, true) } else if c == '"' { (d, !st, false) } else if st { (d, st, false) } else if c == '(' || c == '[' || c == '{' { (d + 1, st, false) } else if c == ')' || c == ']' || c == '}' { (d - 1, st, false) } else { (d, st, false) }
        });
        if !e && s[i] != '\\' && s[i] != '"' && !st && s[i] == '|' && d == 0 {
            lemma_split_scan(s, i + 1, i + 1);
            let rest = split_scan(s, i + 1, d, st, false, i + 1);
            lemma_join_cons(s.subrange(start, i), rest, "|"@);
            assert(s.subrange(start, i) + "|"@ + s.subrange(i + 1, s.len() as int) =~= s.subrange(start, s.len() as int)) by {
                reveal_strlit("|");
            }
        } else {
            lemma_split_scan(s, i + 1, start);
        }
    }
}

/// Splitting a pipe chain loses nothing and splits at every top-level
/// bar: there is always at least one piece, the pieces joined with `|`
/// give the text back, and there is one piece more than there are `|`
/// characters at bracket depth zero outside strings, not after a
/// backslash.
pub proof fn law_pipe_split(s: Seq<char>)
    ensures
        split_scan(s, 0, 0, false, false, 0).len() >= 1,
        split_scan(s, 0, 0, false, false, 0).len() == 1 + top_level_bars(s, 0),
        join_spec(split_scan(s, 0, 0, false, false, 0), "|"@) == s,
{
    lemma_split_scan(s, 0, 0);
    assert(s.subrange(0, s.len() as int) =~= s);
}

/// Splits a pipe chain at its top-level `|` characters (outside brackets,
/// parentheses, braces and strings).
pub fn split_pipe_chain(s: &str) -> (r: Vec<String>)
    requires
        s@.len() <= i64::MAX,
    ensures
        strings_view(r@) == split_scan(s@, 0, 0, false, false, 0),
{
    let cs = chars_of(s);
    let mut segments: Vec<String> = Vec::new();
    let mut depth: i64 = 0;
    let mut in_string = false;
    let mut escape = false;
    let mut start: usize = 0;
    let mut i: usize = 0;
    assert(strings_view(segments@) + split_scan(s@, 0, 0, false, false, 0) =~= split_scan(s@, 0, 0, false, false, 0));
    while i < cs.len()
        invariant
            cs@ == s@,
            cs@.len() <= i64::MAX,
            start <= i <= cs@.len(),
            -(i as int) <= depth <= i,
            strings_view(segments@) + split_scan(s@, i as int, depth as int, in_string, escape, start as int) == split_scan(s@, 0, 0, false, false, 0),
        decreases cs@.len() - i,
    {
        let c = cs[i];
        if escape {
            escape = false;
        } else if c == '\\' {
            escape = true;
        } else if c == '"' {
            in_string = !in_string;
        } else if in_string {
        } else if c == '(' || c == '[' || c == '{' {
            depth = depth + 1;
        } else if c == ')' || c == ']' || c == '}' {
            depth = depth - 1;
        } else if c == '|' && depth == 0 {
            let piece = string_from_range(cs.as_slice(), start, i);
            let ghost before = strings_view(segments@);
            segments.push(piece);
            assert(strings_view(segments@) =~= before.push(s@.subrange(start as int, i as int)));
            assert(strings_view(segments@) + split_scan(s@, i + 1, 0, in_string, false, i + 1) =~= before + split_scan(s@, i as int, 0, in_string, false, start as int));
            start = i + 1;
        }
        i = i + 1;
    }
    let piece = string_from_range(cs.as_slice(), start, cs.len());
    let ghost before = strings_view(segments@);
    segments.push(piece);
    assert(strings_view(segments@) =~= before + split_scan(s@, i as int, depth as int, in_string, escape, start as int));
    segments
}

// ── Native filters ─────────────────────────────────────────────────

/// A native filter: `find_blocks(` ... `)`.
pub open spec fn is_native_spec(e: Seq<char>) -> bool {
    is_prefix("find_blocks("@, e) && is_suffix(")"@, e)
}

/// Whether an expression is a native filter.
pub fn is_native(expr: &str) -> (r: bool)
    ensures
        r == is_native_spec(expr@),
{
    starts_with(expr, "find_blocks(") && ends_with(expr, ")")
}

/// `s` with every leading copy of the non-empty `p` removed.
pub open spec fn strip_prefixes(s: Seq<char>, p: Seq<char>) -> Seq<char>
    decreases s.len(),
{
    if p.len() > 0 && is_prefix(p, s) {
        strip_prefixes(s.subrange(p.len() as int, s.len() as int), p)
    } else {
        s
    }
}

/// `s` with every trailing `c` removed.
pub open spec fn strip_trailing(s: Seq<char>, c: char) -> Seq<char>
    decreases s.len(),
{
    if s.len() > 0 && s.last() == c {
        strip_trailing(s.drop_last(), c)
    } else {
        s
    }
}

/// `s` with every leading `c` removed.
pub open spec fn strip_leading(s: Seq<char>, c: char) -> Seq<char>
    decreases s.len(),
{
    if s.len() > 0 && s[0] == c {
        strip_leading(s.drop_first(), c)
    } else {
        s
    }
}

/// The block type a `find_blocks(...)` filter names: the call syntax
/// stripped, then the quotes.
pub open spec fn native_block_type(e: Seq<char>) -> Seq<char> {
    strip_trailing(strip_leading(strip_trailing(strip_prefixes(e, "find_blocks("@), ')'), '"'), '"')
}

fn strip_prefixes_exec(s: &str, p: &str) -> (r: String)
    requires
        p@.len() > 0,
    ensures
        r@ == strip_prefixes(s@, p@),
{
    let cs = chars_of(s);
    let ps = chars_of(p);
    let mut a: usize = 0;
    assert(s@.subrange(0, s@.len() as int) =~= s@);
    while a <= cs.len() && crate::text::chars_match_at(cs.as_slice(), a, ps.as_slice())
        invariant
            cs@ == s@,
            ps@ == p@,
            ps@.len() > 0,
            a <= cs@.len(),
            strip_prefixes(s@, p@) == strip_prefixes(s@.subrange(a as int, s@.len() as int), p@),
        decreases cs@.len() - a,
    {
        let ghost cur = s@.subrange(a as int, s@.len() as int);
        assert(cur.subrange(0, p@.len() as int) =~= s@.subrange(a as int, a + p@.len()));
        assert(cur.subrange(p@.len() as int, cur.len() as int) =~= s@.subrange(a + p@.len(), s@.len() as int));
        a = a + ps.len();
    }
    let ghost cur = s@.subrange(a as int, s@.len() as int);
    assert(!is_prefix(p@, cur)) by {
        if is_prefix(p@, cur) {
            assert(cur.subrange(0, p@.len() as int) =~= s@.subrange(a as int, a + p@.len()));
        }
    }
    string_from_range(cs.as_slice(), a, cs.len())
}

fn strip_char_both(s: &str, lead: bool, c: char) -> (r: String)
    ensures
        r@ == (if lead { strip_leading(s@, c) } else { strip_trailing(s@, c) }),
{
    let cs = chars_of(s);
    if lead {
        let mut a: usize = 0;
        assert(s@.subrange(0, s@.len() as int) =~= s@);
        while a < cs.len() && cs[a] == c
            invariant
                cs@ == s@,
                a <= cs@.len(),
                strip_leading(s@, c) == strip_leading(s@.subrange(a as int, s@.len() as int), c),
            decreases cs@.len() - a,
        {
            assert(s@.subrange(a as int, s@.len() as int).drop_first() =~= s@.subrange(a + 1, s@.len() as int));
            a = a + 1;
        }
        string_from_range(cs.as_slice(), a, cs.len())
    } else {
        let mut b: usize = cs.len();
        assert(s@.subrange(0, s@.len() as int) =~= s@);
        while b > 0 && cs[b - 1] == c
            invariant
                cs@ == s@,
                b <= cs@.len(),
                strip_trailing(s@, c) == strip_trailing(s@.subrange(0, b as int), c),
            decreases b,
        {
            assert(s@.subrange(0, b as int).drop_last() =~= s@.subrange(0, b - 1));
            b = b - 1;
        }
        string_from_range(cs.as_slice(), 0, b)
    }
}

/// The message of an unknown native filter.
pub open spec fn unknown_native_message(e: Seq<char>) -> Seq<char> {
    "unknown native filter: "@ + e
}

/// Runs a native filter: `find_blocks("type")` yields one array holding
/// every block of that type in the input, in pre-order; any other
/// expression is an error.
pub fn eval_native(input: &Value, expr: &str) -> (r: Result<Vec<Value>, Error>)
    ensures
        is_native_spec(expr@) ==> (r matches Ok(v) && v@.len() == 1
            && v@[0]@ == Val::Array(blocks_of(input@, native_block_type(expr@)))),
        !is_native_spec(expr@) ==> (r matches Err(Error::Other(m)) && m@ == unknown_native_message(expr@)),
{
    if is_native(expr) {
        proof { reveal_strlit("find_blocks("); }
        let a = strip_prefixes_exec(expr, "find_blocks(");
        let b = strip_char_both(a.as_str(), false, ')');
        let c = strip_char_both(b.as_str(), true, '"');
        let block_type = strip_char_both(c.as_str(), false, '"');
        let found = input.find_blocks(block_type.as_str());
        let mut blocks: Vec<Value> = Vec::new();
        let mut i: usize = 0;
        while i < found.len()
            invariant
                i <= found@.len(),
                blocks@.len() == i,
                forall|j: int| 0 <= j < i ==> #[trigger] blocks@[j]@ == found@[j]@,
            decreases found@.len() - i,
        {
            blocks.push(Value::Block(clone_block(found[i])));
            i = i + 1;
        }
        proof { crate::value::lemma_view_values(blocks@); }
        assert(view_values(blocks@) =~= block_refs_view(found@));
        Ok(vec![Value::Array(blocks)])
    } else {
        let mut m = to_owned_string("unknown native filter: ");
        push_str(&mut m, expr);
        Err(Error::Other(m))
    }
}

// ── Planning ───────────────────────────────────────────────────────

/// How an expression is run.
#[derive(Debug)]
pub enum QueryPlan {
    /// The input itself is the only output.
    Identity,
    /// The whole expression runs in the jq engine.
    Jaq(String),
    /// The segments of a pipe chain run in turn, each on every output of
    /// the one before: native filters here, the others in the jq engine.
    Pipeline(Vec<String>),
}

/// The plan for an expression (trimmed first).
pub open spec fn plan_spec(expr: Seq<char>) -> (int, Seq<Seq<char>>) {
    let e = trim_spec(expr);
    if e.len() == 0 || e == "."@ {
        (0, Seq::empty())
    } else if native_from(e, 0, false, false) {
        (2, split_scan(e, 0, 0, false, false, 0))
    } else {
        (1, seq![e])
    }
}

/// Model of a plan: its kind (identity, jq, pipeline) and its texts.
pub open spec fn plan_view(p: QueryPlan) -> (int, Seq<Seq<char>>) {
    match p {
        QueryPlan::Identity => (0, Seq::empty()),
        QueryPlan::Jaq(e) => (1, seq![e@]),
        QueryPlan::Pipeline(s) => (2, strings_view(s@)),
    }
}

/// Plans an expression: empty or `.` is the identity; an expression with
/// a native filter outside strings is split into its pipe segments; any
/// other goes to jq whole.
pub fn plan_query(expression: &str) -> (r: QueryPlan)
    requires
        expression@.len() <= i64::MAX,
    ensures
        plan_view(r) == plan_spec(expression@),
{
    let e = trim(expression);
    if e.unicode_len() == 0 || str_eq(e, ".") {
        return QueryPlan::Identity;
    }
    if contains_native(e) {
        return QueryPlan::Pipeline(split_pipe_chain(e));
    }
    QueryPlan::Jaq(to_owned_string(e))
}

} // verus!
