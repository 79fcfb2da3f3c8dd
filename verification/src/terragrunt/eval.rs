//! Path arithmetic used when evaluating Terragrunt functions.
use vstd::prelude::*;
use crate::text::{push_string, rooted, rooted_components, join_spec, join_with, str_eq, strings_view, to_owned_string};

verus! {

/// Length of the common prefix of `a` and `b`, counting from `i`.
pub open spec fn common_from(a: Seq<Seq<char>>, b: Seq<Seq<char>>, i: int) -> int
    decreases a.len() - i,
{
    if i < 0 || i >= a.len() || i >= b.len() || a[i] != b[i] {
        i
    } else {
        common_from(a, b, i + 1)
    }
}

/// The relative path from `base` to `target`: one `..` for each
/// component of `base` past the common prefix, then the rest of `target`;
/// `.` when that is nothing.
pub open spec fn pathdiff_spec(target: Seq<char>, base: Seq<char>) -> Seq<char> {
    let t = rooted_components(target);
    let b = rooted_components(base);
    let c = common_from(t, b, 0);
    let parts = Seq::new((b.len() - c) as nat, |i: int| ".."@) + t.subrange(c, t.len() as int);
    if parts.len() == 0 { "."@ } else { join_spec(parts, "/"@) }
}

/// The relative path from `base` to `target` (see [`pathdiff_spec`]).
pub fn pathdiff(target: &str, base: &str) -> (r: String)
    ensures
        r@ == pathdiff_spec(target@, base@),
{
    let t = rooted(target);
    let b = rooted(base);
    let ghost tv = strings_view(t@);
    let ghost bv = strings_view(b@);
    let mut c: usize = 0;
    while c < t.len() && c < b.len() && str_eq(t[c].as_str(), b[c].as_str())
        invariant
            tv == strings_view(t@),
            bv == strings_view(b@),
            c <= t@.len(),
            c <= b@.len(),
            common_from(tv, bv, 0) == common_from(tv, bv, c as int),
        decreases t@.len() - c,
    {
        c = c + 1;
    }
    assert(common_from(tv, bv, c as int) == c);
    let mut parts: Vec<String> = Vec::new();
    let mut i: usize = 0;
    while i < b.len() - c
        invariant
            c <= b@.len(),
            i <= b@.len() - c,
            strings_view(parts@) == Seq::new(i as nat, |j: int| ".."@),
        decreases b@.len() - c - i,
    {
        push_string(&mut parts, "..");
        assert(strings_view(parts@) =~= Seq::new((i + 1) as nat, |j: int| ".."@));
        i = i + 1;
    }
    let ghost ups = strings_view(parts@);
    let mut j: usize = c;
    while j < t.len()
        invariant
            tv == strings_view(t@),
            c <= j <= t@.len(),
            strings_view(parts@) == ups + tv.subrange(c as int, j as int),
        decreases t@.len() - j,
    {
        assert(tv[j as int] == t@[j as int]@);
        push_string(&mut parts, t[j].as_str());
        assert(strings_view(parts@) =~= ups + tv.subrange(c as int, j + 1));
        j = j + 1;
    }
    if parts.len() == 0 {
        to_owned_string(".")
    } else {
        join_with(&parts, "/")
    }
}


proof fn lemma_common_self(a: Seq<Seq<char>>, i: int)
    requires
        0 <= i <= a.len(),
    ensures
        common_from(a, a, i) == a.len(),
    decreases a.len() - i,
{
    if i < a.len() {
        lemma_common_self(a, i + 1);
    }
}

/// The relative path from a directory to itself is `.`.
pub proof fn law_pathdiff_self(p: Seq<char>)
    ensures
        pathdiff_spec(p, p) == "."@,
{
    let t = rooted_components(p);
    lemma_common_self(t, 0);
    assert((Seq::new(0nat, |i: int| ".."@) + t.subrange(t.len() as int, t.len() as int)).len() == 0);
}

} // verus!
