//! Path expressions over value trees: dot notation (`a.b.c`), array
//! indexes (`a.0.b`), wildcards (`a.*.name`) and recursive descent
//! (`a..name`).
use vstd::prelude::*;
use crate::text::{lemma_split_nonempty, parse_usize, parse_usize_spec, split_spec, split_str, str_eq, strings_view, to_owned_string};
use crate::value::{Value, Val, refs_view, select_segs, select_spec, val_get, val_get_index, val_values, walk_vals};

verus! {

/// A parsed path expression.
#[derive(Debug)]
pub struct Path {
    pub segments: Vec<Segment>,
}

/// One segment of a path.
#[derive(Debug, PartialEq)]
pub enum Segment {
    /// A named key of a map or block.
    Key(String),
    /// An array index.
    Index(usize),
    /// Every child.
    Wildcard,
    /// The value and all its descendants.
    RecursiveDescent,
}

/// Model of a segment.
pub enum SegmentView {
    Key(Seq<char>),
    Index(nat),
    Wildcard,
    RecursiveDescent,
}

/// Model of a segment.
pub open spec fn segment_view(s: Segment) -> SegmentView {
    match s {
        Segment::Key(k) => SegmentView::Key(k@),
        Segment::Index(i) => SegmentView::Index(i as nat),
        Segment::Wildcard => SegmentView::Wildcard,
        Segment::RecursiveDescent => SegmentView::RecursiveDescent,
    }
}

/// Model of a list of segments.
pub open spec fn segment_views(s: Seq<Segment>) -> Seq<SegmentView> {
    Seq::new(s.len(), |i: int| segment_view(s[i]))
}

/// The segments of the first `n` dot-separated parts: an empty first part
/// is skipped, any other empty part is a recursive descent, `*` is a
/// wildcard, a number is an index, anything else a key.
pub open spec fn parse_parts(parts: Seq<Seq<char>>, n: int) -> Seq<SegmentView>
    decreases n,
{
    if n <= 0 || n > parts.len() {
        Seq::empty()
    } else {
        let pre = parse_parts(parts, n - 1);
        let p = parts[n - 1];
        if p.len() == 0 {
            if n - 1 == 0 { pre } else { pre.push(SegmentView::RecursiveDescent) }
        } else if p == "*"@ {
            pre.push(SegmentView::Wildcard)
        } else {
            match parse_usize_spec(p) {
                Some(i) => pre.push(SegmentView::Index(i)),
                None => pre.push(SegmentView::Key(p)),
            }
        }
    }
}

/// The segments of a path string.
pub open spec fn parse_spec(s: Seq<char>) -> Seq<SegmentView> {
    let parts = split_spec(s, '.');
    parse_parts(parts, parts.len() as int)
}

/// The values one segment selects from one value.
pub open spec fn step_spec(v: Val, seg: SegmentView) -> Seq<Val> {
    match seg {
        SegmentView::Key(k) => match val_get(v, k) { Some(x) => seq![x], None => Seq::empty() },
        SegmentView::Index(i) => match val_get_index(v, i as int) { Some(x) => seq![x], None => Seq::empty() },
        SegmentView::Wildcard => val_values(v),
        SegmentView::RecursiveDescent => walk_vals(v),
    }
}

/// The values one segment selects from the first `n` current values.
pub open spec fn step_all(cur: Seq<Val>, seg: SegmentView, n: int) -> Seq<Val>
    decreases n,
{
    if n <= 0 || n > cur.len() {
        Seq::empty()
    } else {
        step_all(cur, seg, n - 1) + step_spec(cur[n - 1], seg)
    }
}

/// The values the first `n` segments select from `root`.
pub open spec fn resolve_spec(root: Val, segs: Seq<SegmentView>, n: int) -> Seq<Val>
    decreases n,
{
    if n <= 0 || n > segs.len() {
        seq![root]
    } else {
        let cur = resolve_spec(root, segs, n - 1);
        step_all(cur, segs[n - 1], cur.len() as int)
    }
}

impl Path {
    /// Parses a dot-notation path: `"a.0.*"` is a key, an index and a
    /// wildcard; `"a..b"` has a recursive descent between its keys.
    pub fn parse(s: &str) -> (r: Path)
        ensures
            segment_views(r.segments@) == parse_spec(s@),
    {
        let parts = split_str(s, '.');
        let ghost pv = strings_view(parts@);
        let mut segments: Vec<Segment> = Vec::new();
        let mut i: usize = 0;
        assert(segment_views(segments@) =~= parse_parts(pv, 0));
        while i < parts.len()
            invariant
                pv == strings_view(parts@),
                i <= parts@.len(),
                segment_views(segments@) == parse_parts(pv, i as int),
            decreases parts@.len() - i,
        {
            let part = parts[i].as_str();
            assert(pv[i as int] == part@);
            let ghost before = segment_views(segments@);
            if part.unicode_len() == 0 {
                if i != 0 {
                    segments.push(Segment::RecursiveDescent);
                    assert(segment_views(segments@) =~= before.push(SegmentView::RecursiveDescent));
                }
            } else if str_eq(part, "*") {
                segments.push(Segment::Wildcard);
                assert(segment_views(segments@) =~= before.push(SegmentView::Wildcard));
            } else {
                match parse_usize(part) {
                    Some(n) => {
                        segments.push(Segment::Index(n));
                        assert(segment_views(segments@) =~= before.push(SegmentView::Index(n as nat)));
                    },
                    None => {
                        segments.push(Segment::Key(to_owned_string(part)));
                        assert(segment_views(segments@) =~= before.push(SegmentView::Key(part@)));
                    },
                }
            }
            i = i + 1;
        }
        Path { segments }
    }

    /// Every value the path selects from `root`, in order.
    pub fn resolve<'a>(&self, root: &'a Value) -> (r: Vec<&'a Value>)
        ensures
            refs_view(r@) == resolve_spec(root@, segment_views(self.segments@), self.segments@.len() as int),
    {
        let ghost sv = segment_views(self.segments@);
        let mut current: Vec<&Value> = vec![root];
        assert(refs_view(current@) =~= seq![root@]);
        let mut s: usize = 0;
        while s < self.segments.len()
            invariant
                sv == segment_views(self.segments@),
                s <= self.segments@.len(),
                refs_view(current@) == resolve_spec(root@, sv, s as int),
            decreases self.segments@.len() - s,
        {
            let seg = &self.segments[s];
            assert(sv[s as int] == segment_view(*seg));
            let ghost cv = refs_view(current@);
            let mut next: Vec<&Value> = Vec::new();
            let mut i: usize = 0;
            assert(refs_view(next@) =~= step_all(cv, sv[s as int], 0));
            while i < current.len()
                invariant
                    cv == refs_view(current@),
                    sv == segment_views(self.segments@),
                    s < self.segments@.len(),
                    *seg == self.segments@[s as int],
                    i <= current@.len(),
                    refs_view(next@) == step_all(cv, sv[s as int], i as int),
                decreases current@.len() - i,
            {
                let val = current[i];
                assert(cv[i as int] == val@);
                let ghost before = refs_view(next@);
                match seg {
                    Segment::Key(k) => {
                        match val.get(k.as_str()) {
                            Some(v) => {
                                next.push(v);
                                assert(refs_view(next@) =~= before + step_spec(val@, sv[s as int]));
                            },
                            None => {
                                assert(refs_view(next@) =~= before + step_spec(val@, sv[s as int]));
                            },
                        }
                    },
                    Segment::Index(n) => {
                        match val.get_index(*n) {
                            Some(v) => {
                                next.push(v);
                                assert(refs_view(next@) =~= before + step_spec(val@, sv[s as int]));
                            },
                            None => {
                                assert(refs_view(next@) =~= before + step_spec(val@, sv[s as int]));
                            },
                        }
                    },
                    Segment::Wildcard => {
                        let vs = val.values();
                        let mut j: usize = 0;
                        while j < vs.len()
                            invariant
                                j <= vs@.len(),
                                refs_view(next@) == before + refs_view(vs@).subrange(0, j as int),
                            decreases vs@.len() - j,
                        {
                            let ghost b2 = refs_view(next@);
                            next.push(vs[j]);
                            assert(refs_view(next@) =~= b2.push(vs@[j as int]@));
                            assert(refs_view(next@) =~= before + refs_view(vs@).subrange(0, j + 1));
                            j = j + 1;
                        }
                        assert(refs_view(vs@).subrange(0, vs@.len() as int) =~= refs_view(vs@));
                    },
                    Segment::RecursiveDescent => {
                        let vs = val.walk();
                        let mut j: usize = 0;
                        while j < vs.len()
                            invariant
                                j <= vs@.len(),
                                refs_view(next@) == before + refs_view(vs@).subrange(0, j as int),
                            decreases vs@.len() - j,
                        {
                            let ghost b2 = refs_view(next@);
                            next.push(vs[j]);
                            assert(refs_view(next@) =~= b2.push(vs@[j as int]@));
                            assert(refs_view(next@) =~= before + refs_view(vs@).subrange(0, j + 1));
                            j = j + 1;
                        }
                        assert(refs_view(vs@).subrange(0, vs@.len() as int) =~= refs_view(vs@));
                    },
                }
                i = i + 1;
            }
            current = next;
            s = s + 1;
        }
        current
    }
}


// ── Laws ───────────────────────────────────────────────────────────

proof fn lemma_split_pieces_plain(s: Seq<char>, c: char)
    ensures
        forall|i: int| 0 <= i < split_spec(s, c).len() ==> !(#[trigger] split_spec(s, c)[i]).contains(c),
    decreases s.len(),
{
    lemma_split_nonempty(s, c);
    if s.len() > 0 {
        lemma_split_pieces_plain(s.drop_last(), c);
        lemma_split_nonempty(s.drop_last(), c);
        let pre = split_spec(s.drop_last(), c);
        let r = split_spec(s, c);
        assert forall|i: int| 0 <= i < r.len() implies !(#[trigger] r[i]).contains(c) by {
            if s.last() != c && i == pre.len() - 1 {
                let q = pre.last().push(s.last());
                assert(r[i] == q);
                if q.contains(c) {
                    let j = choose|j: int| 0 <= j < q.len() && q[j] == c;
                    if j < pre.last().len() {
                        assert(pre[pre.len() - 1][j] == c);
                        assert(pre[pre.len() - 1].contains(c));
                    }
                }
            } else if i < pre.len() {
                assert(r[i] == pre[i]);
            } else {
                assert(r[i] == Seq::<char>::empty());
            }
        }
    }
}

proof fn lemma_split_many(s: Seq<char>, c: char)
    requires
        s.contains(c),
    ensures
        split_spec(s, c).len() >= 2,
    decreases s.len(),
{
    lemma_split_nonempty(s.drop_last(), c);
    if s.last() != c {
        let j = choose|j: int| 0 <= j < s.len() && s[j] == c;
        assert(s.drop_last()[j] == c);
        lemma_split_many(s.drop_last(), c);
    }
}

proof fn lemma_split_first_empty(s: Seq<char>, c: char)
    ensures
        split_spec(s, c)[0].len() == 0 <==> (s.len() == 0 || s[0] == c),
    decreases s.len(),
{
    lemma_split_nonempty(s, c);
    if s.len() > 0 {
        let t = s.drop_last();
        lemma_split_nonempty(t, c);
        lemma_split_first_empty(t, c);
        let pre = split_spec(t, c);
        if t.len() > 0 {
            assert(s[0] == t[0]);
            if s.last() != c && pre.len() == 1 && t[0] == c {
                assert(t.contains(c));
                lemma_split_many(t, c);
            }
        }
    }
}

proof fn lemma_split_after_sep(s: Seq<char>, c: char)
    ensures
        split_spec(seq![c] + s, c) == seq![Seq::<char>::empty()] + split_spec(s, c),
    decreases s.len(),
{
    let x = seq![c] + s;
    if s.len() == 0 {
        assert(x.drop_last() =~= Seq::<char>::empty());
        assert(split_spec(Seq::<char>::empty(), c) == seq![Seq::<char>::empty()]);
        assert(s =~= Seq::<char>::empty());
        assert(x.last() == c);
        assert(split_spec(x, c) =~= seq![Seq::<char>::empty()] + split_spec(s, c));
    } else {
        assert(x.drop_last() =~= seq![c] + s.drop_last());
        lemma_split_after_sep(s.drop_last(), c);
        lemma_split_nonempty(s.drop_last(), c);
        assert(x.last() == s.last());
        assert(split_spec(x, c) =~= seq![Seq::<char>::empty()] + split_spec(s, c));
    }
}

/// A part that parses as a key.
pub open spec fn is_key_shape(k: Seq<char>) -> bool {
    k.len() > 0 && !k.contains('.') && k != "*"@ && parse_usize_spec(k) is None
}

proof fn lemma_parse_parts_shape(parts: Seq<Seq<char>>, n: int)
    requires
        0 <= n <= parts.len(),
        forall|i: int| 0 <= i < parts.len() ==> !(#[trigger] parts[i]).contains('.'),
    ensures
        parse_parts(parts, n).len() == n - (if n >= 1 && parts[0].len() == 0 { 1int } else { 0int }),
        forall|i: int| 0 <= i < parse_parts(parts, n).len() ==>
            (#[trigger] parse_parts(parts, n)[i] matches SegmentView::Key(k) ==> is_key_shape(k)),
    decreases n,
{
    if n > 0 {
        lemma_parse_parts_shape(parts, n - 1);
        let pre = parse_parts(parts, n - 1);
        let p = parts[n - 1];
        assert(!p.contains('.'));
        let r = parse_parts(parts, n);
        assert forall|i: int| 0 <= i < r.len() implies
            (#[trigger] r[i] matches SegmentView::Key(k) ==> is_key_shape(k)) by {
            if i < pre.len() {
                assert(r[i] == pre[i]);
            }
        }
    }
}

/// The shape of a parsed path: each dot-separated part of the text gives
/// one segment, but for an empty first part (an empty text or one that
/// starts with a dot), which gives none; a key is never empty, holds no
/// dot, is not `*` and does not read as an index; and a leading dot
/// changes nothing.
pub proof fn law_parse_shape(s: Seq<char>)
    ensures
        parse_spec(s).len() == split_spec(s, '.').len() - (if s.len() == 0 || s[0] == '.' { 1int } else { 0int }),
        forall|i: int| 0 <= i < parse_spec(s).len() ==>
            (#[trigger] parse_spec(s)[i] matches SegmentView::Key(k) ==> is_key_shape(k)),
        s.len() > 0 && s[0] != '.' ==> parse_spec(seq!['.'] + s) == parse_spec(s),
{
    let parts = split_spec(s, '.');
    lemma_split_nonempty(s, '.');
    lemma_split_pieces_plain(s, '.');
    lemma_split_first_empty(s, '.');
    lemma_parse_parts_shape(parts, parts.len() as int);
    if s.len() > 0 && s[0] != '.' {
        lemma_split_after_sep(s, '.');
        let dotted = split_spec(seq!['.'] + s, '.');
        assert(dotted == seq![Seq::<char>::empty()] + parts);
        lemma_parse_parts_shift(parts, parts.len() as int);
    }
}

proof fn lemma_parse_parts_shift(parts: Seq<Seq<char>>, n: int)
    requires
        0 <= n <= parts.len(),
        parts.len() > 0,
        parts[0].len() > 0,
    ensures
        parse_parts(seq![Seq::<char>::empty()] + parts, n + 1) == parse_parts(parts, n),
    decreases n,
{
    let d = seq![Seq::<char>::empty()] + parts;
    if n == 0 {
        assert(d[0].len() == 0);
        assert(parse_parts(d, 0) == Seq::<SegmentView>::empty());
    } else {
        lemma_parse_parts_shift(parts, n - 1);
        assert(d[n] == parts[n - 1]);
    }
}

/// Each part of the path is a key of some length: not empty, not `*`,
/// not an index.
pub open spec fn plain_part(p: Seq<char>) -> bool {
    p.len() > 0 && p != "*"@ && parse_usize_spec(p) is None
}

/// The values an optional selection stands for.
pub open spec fn opt_seq(o: Option<Val>) -> Seq<Val> {
    match o {
        Some(x) => seq![x],
        None => Seq::empty(),
    }
}

proof fn lemma_parse_plain(parts: Seq<Seq<char>>, n: int)
    requires
        0 <= n <= parts.len(),
        forall|i: int| 0 <= i < parts.len() ==> plain_part(#[trigger] parts[i]),
    ensures
        parse_parts(parts, n) == Seq::new(n as nat, |i: int| SegmentView::Key(parts[i])),
    decreases n,
{
    if n > 0 {
        lemma_parse_plain(parts, n - 1);
        assert(plain_part(parts[n - 1]));
        assert(parse_parts(parts, n) =~= Seq::new(n as nat, |i: int| SegmentView::Key(parts[i])));
    }
}

proof fn lemma_resolve_keys(v: Val, parts: Seq<Seq<char>>, n: int)
    requires
        0 <= n <= parts.len(),
        forall|i: int| 0 <= i < parts.len() ==> plain_part(#[trigger] parts[i]),
    ensures
        resolve_spec(v, Seq::new(parts.len(), |i: int| SegmentView::Key(parts[i])), n) == opt_seq(select_segs(v, parts.take(n))),
    decreases n,
{
    let segs = Seq::new(parts.len(), |i: int| SegmentView::Key(parts[i]));
    if n == 0 {
        assert(parts.take(0) =~= Seq::<Seq<char>>::empty());
    } else {
        lemma_resolve_keys(v, parts, n - 1);
        assert(parts.take(n).drop_last() =~= parts.take(n - 1));
        assert(parts.take(n).last() == parts[n - 1]);
        assert(plain_part(parts[n - 1]));
        let cur = resolve_spec(v, segs, n - 1);
        assert(segs[n - 1] == SegmentView::Key(parts[n - 1]));
        match select_segs(v, parts.take(n - 1)) {
            Some(c) => {
                assert(step_all(cur, segs[n - 1], 0) == Seq::<Val>::empty());
                assert(step_all(cur, segs[n - 1], 1) =~= step_spec(c, segs[n - 1]));
            },
            None => {},
        }
    }
}

/// Resolving a path of plain keys agrees with selecting it: one value
/// where the key chain exists, none otherwise; the empty path gives the
/// value itself.
pub proof fn law_resolve_agrees_with_select(v: Val, s: Seq<char>)
    requires
        s.len() == 0 || forall|i: int| 0 <= i < split_spec(s, '.').len() ==> plain_part(#[trigger] split_spec(s, '.')[i]),
    ensures
        resolve_spec(v, parse_spec(s), parse_spec(s).len() as int) == opt_seq(select_spec(v, s)),
{
    let parts = split_spec(s, '.');
    if s.len() == 0 {
        assert(parts == seq![Seq::<char>::empty()]);
        assert(parts[0].len() == 0);
        assert(parse_parts(parts, 0) == Seq::<SegmentView>::empty());
        assert(parse_spec(s) =~= Seq::<SegmentView>::empty());
    } else {
        lemma_parse_plain(parts, parts.len() as int);
        lemma_resolve_keys(v, parts, parts.len() as int);
        assert(parts.take(parts.len() as int) =~= parts);
        assert(parse_spec(s) == Seq::new(parts.len(), |i: int| SegmentView::Key(parts[i])));
    }
}

/// The value reached from `v` by following the child positions of
/// `route` in turn (an element of an array, the value of an entry of a
/// map or block body), if every position exists.
pub open spec fn follow(v: Val, route: Seq<int>) -> Option<Val>
    decreases route.len(),
{
    if route.len() == 0 {
        Some(v)
    } else if 0 <= route[0] < val_values(v).len() {
        follow(val_values(v)[route[0]], route.drop_first())
    } else {
        None
    }
}

proof fn lemma_walk_seq_holds(a: Seq<Val>, n: int, i: int, x: Val)
    requires
        0 <= i < n <= a.len(),
        walk_vals(a[i]).contains(x),
    ensures
        crate::value::walk_seq(a, n).contains(x),
    decreases n,
{
    if i < n - 1 {
        lemma_walk_seq_holds(a, n - 1, i, x);
        let pre = crate::value::walk_seq(a, n - 1);
        let k = choose|k: int| 0 <= k < pre.len() && pre[k] == x;
        assert(crate::value::walk_seq(a, n)[k] == x);
    } else {
        let pre = crate::value::walk_seq(a, n - 1);
        let k = choose|k: int| 0 <= k < walk_vals(a[i]).len() && walk_vals(a[i])[k] == x;
        assert(crate::value::walk_seq(a, n)[pre.len() + k] == x);
    }
}

proof fn lemma_walk_entries_holds(m: Seq<(Seq<char>, Val)>, n: int, i: int, x: Val)
    requires
        0 <= i < n <= m.len(),
        walk_vals(m[i].1).contains(x),
    ensures
        crate::value::walk_entries(m, n).contains(x),
    decreases n,
{
    if i < n - 1 {
        lemma_walk_entries_holds(m, n - 1, i, x);
        let pre = crate::value::walk_entries(m, n - 1);
        let k = choose|k: int| 0 <= k < pre.len() && pre[k] == x;
        assert(crate::value::walk_entries(m, n)[k] == x);
    } else {
        let pre = crate::value::walk_entries(m, n - 1);
        let k = choose|k: int| 0 <= k < walk_vals(m[i].1).len() && walk_vals(m[i].1)[k] == x;
        assert(crate::value::walk_entries(m, n)[pre.len() + k] == x);
    }
}

/// A recursive descent selects the value itself and every value below
/// it: whatever is reached from `v` along any route of child positions
/// is among the values the step selects, and so among what a path made
/// of that one step resolves to.
pub proof fn law_recursive_descent_reaches_all(v: Val, route: Seq<int>, w: Val)
    requires
        follow(v, route) == Some(w),
    ensures
        step_spec(v, SegmentView::RecursiveDescent).contains(w),
        resolve_spec(v, seq![SegmentView::RecursiveDescent], 1).contains(w),
    decreases route.len(),
{
    if route.len() == 0 {
        assert(walk_vals(v)[0] == v);
    } else {
        let i = route[0];
        let c = val_values(v)[i];
        law_recursive_descent_reaches_all(c, route.drop_first(), w);
        assert(walk_vals(c).contains(w));
        let rest = match v {
            Val::Array(a) => crate::value::walk_seq(a, a.len() as int),
            Val::Object(m) => crate::value::walk_entries(m, m.len() as int),
            Val::Block(_, _, m) => crate::value::walk_entries(m, m.len() as int),
            _ => Seq::empty(),
        };
        assert(walk_vals(v) == seq![v] + rest);
        match v {
            Val::Array(a) => { lemma_walk_seq_holds(a, a.len() as int, i, w); },
            Val::Object(m) => { lemma_walk_entries_holds(m, m.len() as int, i, w); },
            Val::Block(_, _, m) => { lemma_walk_entries_holds(m, m.len() as int, i, w); },
            _ => {},
        }
        let k = choose|k: int| 0 <= k < rest.len() && rest[k] == w;
        assert(walk_vals(v)[k + 1] == w);
    }
    let segs = seq![SegmentView::RecursiveDescent];
    assert(resolve_spec(v, segs, 0) == seq![v]);
    assert(step_all(seq![v], segs[0], 0) == Seq::<Val>::empty());
    assert(step_all(seq![v], segs[0], 1) =~= step_spec(v, SegmentView::RecursiveDescent));
}

proof fn seq_locate(a: Seq<Val>, n: int, k: int) -> (r: (int, int))
    requires
        0 <= n <= a.len(),
        0 <= k < crate::value::walk_seq(a, n).len(),
    ensures
        0 <= r.0 < n,
        0 <= r.1 < walk_vals(a[r.0]).len(),
        crate::value::walk_seq(a, n)[k] == walk_vals(a[r.0])[r.1],
    decreases n,
{
    let pre = crate::value::walk_seq(a, n - 1);
    if k < pre.len() {
        let r = seq_locate(a, n - 1, k);
        assert(crate::value::walk_seq(a, n)[k] == pre[k]);
        r
    } else {
        (n - 1, k - pre.len())
    }
}

proof fn entries_locate(m: Seq<(Seq<char>, Val)>, n: int, k: int) -> (r: (int, int))
    requires
        0 <= n <= m.len(),
        0 <= k < crate::value::walk_entries(m, n).len(),
    ensures
        0 <= r.0 < n,
        0 <= r.1 < walk_vals(m[r.0].1).len(),
        crate::value::walk_entries(m, n)[k] == walk_vals(m[r.0].1)[r.1],
    decreases n,
{
    let pre = crate::value::walk_entries(m, n - 1);
    if k < pre.len() {
        let r = entries_locate(m, n - 1, k);
        assert(crate::value::walk_entries(m, n)[k] == pre[k]);
        r
    } else {
        (n - 1, k - pre.len())
    }
}

/// A route from `v` to the `k`-th value of its walk.
proof fn walk_route(v: Val, k: int) -> (r: Seq<int>)
    requires
        0 <= k < walk_vals(v).len(),
    ensures
        follow(v, r) == Some(walk_vals(v)[k]),
    decreases v,
{
    if k == 0 {
        Seq::empty()
    } else {
        match v {
            Val::Array(a) => {
                let rest = crate::value::walk_seq(a, a.len() as int);
                assert(walk_vals(v) == seq![v] + rest);
                let (i, j) = seq_locate(a, a.len() as int, k - 1);
                assert(decreases_to!(v => a));
                assert(decreases_to!(a => a[i]));
                let tail = walk_route(a[i], j);
                let route = seq![i] + tail;
                assert(route.drop_first() =~= tail);
                route
            },
            Val::Object(m) => {
                let rest = crate::value::walk_entries(m, m.len() as int);
                assert(walk_vals(v) == seq![v] + rest);
                let (i, j) = entries_locate(m, m.len() as int, k - 1);
                assert(decreases_to!(v => m));
                assert(decreases_to!(m => m[i]));
                assert(decreases_to!(m[i] => m[i].1));
                let tail = walk_route(m[i].1, j);
                let route = seq![i] + tail;
                assert(route.drop_first() =~= tail);
                assert(val_values(v)[i] == m[i].1);
                route
            },
            Val::Block(_, _, m) => {
                let rest = crate::value::walk_entries(m, m.len() as int);
                assert(walk_vals(v) == seq![v] + rest);
                let (i, j) = entries_locate(m, m.len() as int, k - 1);
                assert(decreases_to!(v => m));
                assert(decreases_to!(m => m[i]));
                assert(decreases_to!(m[i] => m[i].1));
                let tail = walk_route(m[i].1, j);
                let route = seq![i] + tail;
                assert(route.drop_first() =~= tail);
                assert(val_values(v)[i] == m[i].1);
                route
            },
            _ => {
                assert(walk_vals(v) =~= seq![v]);
                Seq::empty()
            },
        }
    }
}

/// A recursive descent selects nothing but the value and what lies below
/// it: each value it selects is reached from `v` along some route of
/// child positions.
pub proof fn law_recursive_descent_only_descendants(v: Val, k: int)
    requires
        0 <= k < step_spec(v, SegmentView::RecursiveDescent).len(),
    ensures
        exists|route: Seq<int>| follow(v, route) == Some(step_spec(v, SegmentView::RecursiveDescent)[k]),
{
    let route = walk_route(v, k);
    assert(follow(v, route) == Some(step_spec(v, SegmentView::RecursiveDescent)[k]));
}

} // verus!
