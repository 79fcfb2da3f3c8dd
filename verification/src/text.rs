//! Character-level text helpers shared by the whole library.
//!
//! Strings are specified by their view, a `Seq<char>`.  These helpers give
//! verified building blocks: turning a `&str` into its characters, building
//! `String`s from characters, decimal rendering of integers, and the small
//! predicates (prefix, suffix, containment, splitting) the rest of the
//! library relies on.
use vstd::prelude::*;
use vstd::string::StrSliceExecFns;

verus! {

/// `String::push` from std: appends one character.
#[verifier::external_body]
pub(crate) fn push_char(s: &mut String, c: char)
    ensures
        final(s)@ == old(s)@.push(c),
{
    s.push(c);
}

/// `<str as PartialEq>::eq` from std: two string slices are equal exactly
/// when they hold the same characters.
#[verifier::external_body]
pub(crate) fn str_eq(a: &str, b: &str) -> (r: bool)
    ensures
        r == (a@ == b@),
{
    a == b
}

/// The characters of `s`, in order.
pub fn chars_of(s: &str) -> (v: Vec<char>)
    ensures
        v@ == s@,
{
    let n = s.unicode_len();
    let mut v: Vec<char> = Vec::new();
    let mut i: usize = 0;
    while i < n
        invariant
            n == s@.len(),
            i <= n,
            v@ == s@.subrange(0, i as int),
        decreases n - i,
    {
        let c = s.get_char(i);
        v.push(c);
        i = i + 1;
        assert(v@ =~= s@.subrange(0, i as int));
    }
    assert(v@ =~= s@);
    v
}

/// A new `String` holding exactly the characters of `cs`.
pub fn string_from_chars(cs: &[char]) -> (s: String)
    ensures
        s@ == cs@,
{
    let mut s = String::new();
    let mut i: usize = 0;
    while i < cs.len()
        invariant
            i <= cs@.len(),
            s@ == cs@.subrange(0, i as int),
        decreases cs@.len() - i,
    {
        push_char(&mut s, cs[i]);
        i = i + 1;
        assert(s@ =~= cs@.subrange(0, i as int));
    }
    assert(s@ =~= cs@);
    s
}

/// A new `String` holding the characters of `cs` in `[from, to)`.
pub fn string_from_range(cs: &[char], from: usize, to: usize) -> (s: String)
    requires
        from <= to <= cs@.len(),
    ensures
        s@ == cs@.subrange(from as int, to as int),
{
    let mut s = String::new();
    let mut i: usize = from;
    while i < to
        invariant
            from <= i <= to <= cs@.len(),
            s@ == cs@.subrange(from as int, i as int),
        decreases to - i,
    {
        push_char(&mut s, cs[i]);
        i = i + 1;
        assert(s@ =~= cs@.subrange(from as int, i as int));
    }
    s
}

/// Appends `t` to `s`.
pub fn push_str(s: &mut String, t: &str)
    ensures
        final(s)@ == old(s)@ + t@,
{
    s.append(t);
}

/// Copies a string slice into a new `String`.
pub fn to_owned_string(t: &str) -> (s: String)
    ensures
        s@ == t@,
{
    let mut s = String::new();
    s.append(t);
    assert(s@ =~= t@);
    s
}

/// Decimal digit for `d < 10`.
pub open spec fn digit_char(d: nat) -> char {
    if d == 0 { '0' }
    else if d == 1 { '1' }
    else if d == 2 { '2' }
    else if d == 3 { '3' }
    else if d == 4 { '4' }
    else if d == 5 { '5' }
    else if d == 6 { '6' }
    else if d == 7 { '7' }
    else if d == 8 { '8' }
    else { '9' }
}

/// Decimal rendering of a natural number, without leading zeros.
pub open spec fn nat_text(n: nat) -> Seq<char>
    decreases n,
{
    if n < 10 {
        seq![digit_char(n)]
    } else {
        nat_text(n / 10).push(digit_char(n % 10))
    }
}

/// Decimal rendering of an integer, with a leading `-` when negative.
pub open spec fn int_text(n: int) -> Seq<char> {
    if n < 0 {
        seq!['-'] + nat_text((-n) as nat)
    } else {
        nat_text(n as nat)
    }
}

fn digit_of(d: u64) -> (c: char)
    requires
        d < 10,
    ensures
        c == digit_char(d as nat),
{
    if d == 0 { '0' }
    else if d == 1 { '1' }
    else if d == 2 { '2' }
    else if d == 3 { '3' }
    else if d == 4 { '4' }
    else if d == 5 { '5' }
    else if d == 6 { '6' }
    else if d == 7 { '7' }
    else if d == 8 { '8' }
    else { '9' }
}

fn u64_digits(n: u64) -> (v: Vec<char>)
    ensures
        v@ == nat_text(n as nat),
    decreases n,
{
    if n < 10 {
        let mut v = Vec::new();
        v.push(digit_of(n));
        v
    } else {
        let mut v = u64_digits(n / 10);
        v.push(digit_of(n % 10));
        v
    }
}

/// Decimal rendering of an unsigned 64-bit integer.
pub fn u64_text(n: u64) -> (s: String)
    ensures
        s@ == nat_text(n as nat),
{
    let v = u64_digits(n);
    string_from_chars(v.as_slice())
}

fn u128_digits(n: u128) -> (v: Vec<char>)
    ensures
        v@ == nat_text(n as nat),
    decreases n,
{
    if n < 10 {
        let mut v = Vec::new();
        v.push(digit_of(n as u64));
        v
    } else {
        let mut v = u128_digits(n / 10);
        v.push(digit_of((n % 10) as u64));
        v
    }
}

/// Decimal rendering of an unsigned 128-bit integer.
pub fn u128_text(n: u128) -> (s: String)
    ensures
        s@ == nat_text(n as nat),
{
    let v = u128_digits(n);
    string_from_chars(v.as_slice())
}

/// Decimal rendering of the sum of two `usize` counts.
pub fn sum_text(a: usize, b: usize) -> (s: String)
    ensures
        s@ == nat_text((a + b) as nat),
{
    let n: u128 = a as u128 + b as u128;
    let v = u128_digits(n);
    string_from_chars(v.as_slice())
}

/// Decimal rendering of a `usize`.
pub fn usize_text(n: usize) -> (s: String)
    ensures
        s@ == nat_text(n as nat),
{
    u64_text(n as u64)
}

/// Decimal rendering of a signed 64-bit integer.
pub fn i64_text(n: i64) -> (s: String)
    ensures
        s@ == int_text(n as int),
{
    if n < 0 {
        let m: u64 = if n == i64::MIN { 9223372036854775808u64 } else { (-n) as u64 };
        let digits = u64_digits(m);
        let mut s = String::new();
        push_char(&mut s, '-');
        let mut i: usize = 0;
        while i < digits.len()
            invariant
                i <= digits@.len(),
                s@ == seq!['-'] + digits@.subrange(0, i as int),
            decreases digits@.len() - i,
        {
            push_char(&mut s, digits[i]);
            i = i + 1;
            assert(s@ =~= seq!['-'] + digits@.subrange(0, i as int));
        }
        assert(digits@.subrange(0, digits@.len() as int) =~= digits@);
        s
    } else {
        u64_text(n as u64)
    }
}

/// `p` is a prefix of `s`.
pub open spec fn is_prefix(p: Seq<char>, s: Seq<char>) -> bool {
    p.len() <= s.len() && s.subrange(0, p.len() as int) == p
}

/// `p` is a suffix of `s`.
pub open spec fn is_suffix(p: Seq<char>, s: Seq<char>) -> bool {
    p.len() <= s.len() && s.subrange(s.len() - p.len(), s.len() as int) == p
}

/// `p` occurs in `s` starting at position `i`.
pub open spec fn occurs_at(p: Seq<char>, s: Seq<char>, i: int) -> bool {
    0 <= i && i + p.len() <= s.len() && s.subrange(i, i + p.len()) == p
}

/// `p` occurs somewhere in `s`.
pub open spec fn contains_seq(s: Seq<char>, p: Seq<char>) -> bool {
    exists|i: int| occurs_at(p, s, i)
}

/// Checks whether `cs[at..]` starts with `p`.
pub fn chars_match_at(cs: &[char], at: usize, p: &[char]) -> (r: bool)
    requires
        at <= cs@.len(),
    ensures
        r == occurs_at(p@, cs@, at as int),
{
    if p.len() > cs.len() - at {
        return false;
    }
    let mut j: usize = 0;
    while j < p.len()
        invariant
            cs@.len() <= usize::MAX,
            at <= cs@.len(),
            at + p@.len() <= cs@.len(),
            j <= p@.len(),
            forall|k: int| 0 <= k < j ==> cs@[at + k] == p@[k],
        decreases p@.len() - j,
    {
        let idx: usize = at + j;
        if cs[idx] != p[j] {
            assert(cs@.subrange(at as int, at + p@.len())[j as int] != p@[j as int]);
            return false;
        }
        j = j + 1;
    }
    assert(cs@.subrange(at as int, at + p@.len()) =~= p@);
    true
}

/// `p` is a prefix of `s`.
pub fn starts_with(s: &str, p: &str) -> (r: bool)
    ensures
        r == is_prefix(p@, s@),
{
    let cs = chars_of(s);
    let ps = chars_of(p);
    chars_match_at(cs.as_slice(), 0, ps.as_slice())
}

/// `p` is a suffix of `s`.
pub fn ends_with(s: &str, p: &str) -> (r: bool)
    ensures
        r == is_suffix(p@, s@),
{
    let cs = chars_of(s);
    let ps = chars_of(p);
    if ps.len() > cs.len() {
        return false;
    }
    chars_match_at(cs.as_slice(), cs.len() - ps.len(), ps.as_slice())
}

/// `p` occurs somewhere in `s`.
pub fn contains_str(s: &str, p: &str) -> (r: bool)
    ensures
        r == contains_seq(s@, p@),
{
    let cs = chars_of(s);
    let ps = chars_of(p);
    let n = cs.len();
    let mut i: usize = 0;
    while i < n
        invariant
            n == cs@.len(),
            i <= n,
            cs@ == s@,
            ps@ == p@,
            forall|k: int| 0 <= k < i ==> !occurs_at(p@, s@, k),
        decreases n - i,
    {
        if chars_match_at(cs.as_slice(), i, ps.as_slice()) {
            return true;
        }
        i = i + 1;
    }
    if chars_match_at(cs.as_slice(), n, ps.as_slice()) {
        return true;
    }
    assert forall|k: int| !occurs_at(p@, s@, k) by {
        if 0 <= k < n {
        }
    }
    false
}


/// Pieces of `s` between occurrences of `sep` (like `str::split` with a
/// character pattern: always at least one piece, empty pieces kept).
pub open spec fn split_spec(s: Seq<char>, sep: char) -> Seq<Seq<char>>
    decreases s.len(),
{
    if s.len() == 0 {
        seq![Seq::empty()]
    } else {
        let pre = split_spec(s.drop_last(), sep);
        if s.last() == sep {
            pre.push(Seq::empty())
        } else {
            pre.update(pre.len() - 1, pre.last().push(s.last()))
        }
    }
}

/// `split_spec` never yields zero pieces.
pub proof fn lemma_split_nonempty(s: Seq<char>, sep: char)
    ensures
        split_spec(s, sep).len() >= 1,
    decreases s.len(),
{
    if s.len() > 0 {
        lemma_split_nonempty(s.drop_last(), sep);
    }
}

/// Model of a sequence of owned strings.
pub open spec fn strings_view(v: Seq<String>) -> Seq<Seq<char>> {
    Seq::new(v.len(), |i: int| v[i]@)
}

/// Splits `s` at every `sep`.
pub fn split_str(s: &str, sep: char) -> (r: Vec<String>)
    ensures
        strings_view(r@) == split_spec(s@, sep),
{
    let cs = chars_of(s);
    let mut pieces: Vec<String> = Vec::new();
    let mut cur: Vec<char> = Vec::new();
    let mut i: usize = 0;
    proof {
        assert(cs@.subrange(0, 0) =~= Seq::<char>::empty());
        assert(strings_view(pieces@).push(cur@) =~= seq![Seq::<char>::empty()]);
    }
    while i < cs.len()
        invariant
            i <= cs@.len(),
            strings_view(pieces@).push(cur@) == split_spec(cs@.subrange(0, i as int), sep),
        decreases cs@.len() - i,
    {
        let ghost prev = cs@.subrange(0, i as int);
        let ghost next = cs@.subrange(0, i + 1);
        assert(next.drop_last() =~= prev);
        assert(next.last() == cs@[i as int]);
        proof { lemma_split_nonempty(prev, sep); }
        if cs[i] == sep {
            let piece = string_from_chars(cur.as_slice());
            pieces.push(piece);
            cur = Vec::new();
            assert(strings_view(pieces@).push(cur@) =~= split_spec(next, sep));
        } else {
            let ghost old_pieces = strings_view(pieces@);
            cur.push(cs[i]);
            assert(strings_view(pieces@).push(cur@) =~= split_spec(next, sep));
        }
        i = i + 1;
    }
    assert(cs@.subrange(0, cs@.len() as int) =~= cs@);
    let piece = string_from_chars(cur.as_slice());
    pieces.push(piece);
    assert(strings_view(pieces@) =~= split_spec(s@, sep));
    pieces
}

/// ASCII decimal digit.
pub open spec fn is_digit(c: char) -> bool {
    '0' <= c && c <= '9'
}

/// Numeric value of a digit string.
pub open spec fn digits_value(d: Seq<char>) -> nat
    decreases d.len(),
{
    if d.len() == 0 {
        0
    } else {
        digits_value(d.drop_last()) * 10 + ((d.last() as nat) - ('0' as nat)) as nat
    }
}

/// Every character is an ASCII digit.
pub open spec fn all_digits(d: Seq<char>) -> bool {
    forall|i: int| 0 <= i < d.len() ==> is_digit(#[trigger] d[i])
}

/// The result of parsing `s` as a `usize` the way `str::parse::<usize>`
/// does: an optional leading `+`, then one or more ASCII digits, with a
/// value that fits.
pub open spec fn parse_usize_spec(s: Seq<char>) -> Option<nat> {
    let d = if s.len() > 0 && s[0] == '+' { s.drop_first() } else { s };
    if d.len() == 0 || !all_digits(d) {
        None
    } else if digits_value(d) > usize::MAX {
        None
    } else {
        Some(digits_value(d))
    }
}

/// Appending digits never decreases the value.
pub proof fn lemma_digits_value_mono(d: Seq<char>, k: int)
    requires
        0 <= k <= d.len(),
        all_digits(d),
    ensures
        digits_value(d.subrange(0, k)) <= digits_value(d),
    decreases d.len() - k,
{
    if k < d.len() {
        lemma_digits_value_mono(d, k + 1);
        let p = d.subrange(0, k + 1);
        assert(p.drop_last() =~= d.subrange(0, k));
        assert(is_digit(d[k]));
    } else {
        assert(d.subrange(0, k) =~= d);
    }
}

/// Parses `s` as a `usize`, as [`parse_usize_spec`] states.
pub fn parse_usize(s: &str) -> (r: Option<usize>)
    ensures
        match parse_usize_spec(s@) {
            Some(n) => r == Some(n as usize),
            None => r is None,
        },
{
    let cs = chars_of(s);
    let start: usize = if cs.len() > 0 && cs[0] == '+' { 1 } else { 0 };
    let ghost d = if s@.len() > 0 && s@[0] == '+' { s@.drop_first() } else { s@ };
    assert(d =~= cs@.subrange(start as int, cs@.len() as int));
    if start >= cs.len() {
        return None;
    }
    let mut acc: usize = 0;
    let mut i: usize = start;
    assert(d.subrange(0, 0) =~= Seq::<char>::empty());
    while i < cs.len()
        invariant
            cs@ == s@,
            d == (if s@.len() > 0 && s@[0] == '+' { s@.drop_first() } else { s@ }),
            d.len() > 0,
            start <= i <= cs@.len(),
            d == cs@.subrange(start as int, cs@.len() as int),
            all_digits(d.subrange(0, i - start)),
            acc as nat == digits_value(d.subrange(0, i - start)),
        decreases cs@.len() - i,
    {
        let c = cs[i];
        let ghost k: int = i - start;
        if !('0' <= c && c <= '9') {
            assert(d[k] == c);
            assert(!all_digits(d));
            return None;
        }
        let dig: usize = ((c as u32) - ('0' as u32)) as usize;
        let ghost p = d.subrange(0, k + 1);
        assert(p.drop_last() =~= d.subrange(0, k));
        assert(p.last() == c);
        assert(all_digits(p));
        match acc.checked_mul(10) {
            None => {
                proof {
                    assert(digits_value(p) > usize::MAX);
                    if all_digits(d) {
                        lemma_digits_value_mono(d, k + 1);
                    }
                }
                return None;
            },
            Some(m) => match m.checked_add(dig) {
                None => {
                    proof {
                        assert(digits_value(p) > usize::MAX);
                        if all_digits(d) {
                            lemma_digits_value_mono(d, k + 1);
                        }
                    }
                    return None;
                },
                Some(v) => {
                    acc = v;
                },
            },
        }
        i = i + 1;
    }
    assert(d.subrange(0, i - start) =~= d);
    Some(acc)
}


/// The result of parsing `s` as an `i64` the way `str::parse::<i64>`
/// does: an optional sign, then one or more ASCII digits, with a value
/// that fits.
pub open spec fn parse_i64_spec(s: Seq<char>) -> Option<i64> {
    let neg = s.len() > 0 && s[0] == '-';
    let d = if s.len() > 0 && (s[0] == '+' || s[0] == '-') { s.drop_first() } else { s };
    if d.len() == 0 || !all_digits(d) {
        None
    } else if neg {
        if digits_value(d) <= 0x8000_0000_0000_0000 { Some((0 - digits_value(d)) as i64) } else { None }
    } else {
        if digits_value(d) <= 0x7fff_ffff_ffff_ffff { Some(digits_value(d) as i64) } else { None }
    }
}

/// Parses `s` as an `i64`, as [`parse_i64_spec`] states.
pub fn parse_i64(s: &str) -> (r: Option<i64>)
    ensures
        r == parse_i64_spec(s@),
{
    let cs = chars_of(s);
    let signed = cs.len() > 0 && (cs[0] == '+' || cs[0] == '-');
    let neg = cs.len() > 0 && cs[0] == '-';
    let start: usize = if signed { 1 } else { 0 };
    let ghost d = if s@.len() > 0 && (s@[0] == '+' || s@[0] == '-') { s@.drop_first() } else { s@ };
    assert(d =~= cs@.subrange(start as int, cs@.len() as int));
    if start >= cs.len() {
        return None;
    }
    let mut acc: u64 = 0;
    let mut i: usize = start;
    assert(d.subrange(0, 0) =~= Seq::<char>::empty());
    while i < cs.len()
        invariant
            cs@ == s@,
            d == (if s@.len() > 0 && (s@[0] == '+' || s@[0] == '-') { s@.drop_first() } else { s@ }),
            neg == (s@.len() > 0 && s@[0] == '-'),
            d.len() > 0,
            start <= i <= cs@.len(),
            d == cs@.subrange(start as int, cs@.len() as int),
            all_digits(d.subrange(0, i - start)),
            acc as nat == digits_value(d.subrange(0, i - start)),
        decreases cs@.len() - i,
    {
        let c = cs[i];
        let ghost k: int = i - start;
        if !('0' <= c && c <= '9') {
            assert(d[k] == c);
            assert(!all_digits(d));
            return None;
        }
        let dig: u64 = ((c as u32) - ('0' as u32)) as u64;
        let ghost p = d.subrange(0, k + 1);
        assert(p.drop_last() =~= d.subrange(0, k));
        assert(p.last() == c);
        assert(all_digits(p));
        match acc.checked_mul(10) {
            None => {
                proof {
                    assert(digits_value(p) > u64::MAX);
                    if all_digits(d) {
                        lemma_digits_value_mono(d, k + 1);
                    }
                }
                return None;
            },
            Some(m) => match m.checked_add(dig) {
                None => {
                    proof {
                        assert(digits_value(p) > u64::MAX);
                        if all_digits(d) {
                            lemma_digits_value_mono(d, k + 1);
                        }
                    }
                    return None;
                },
                Some(v) => {
                    acc = v;
                },
            },
        }
        i = i + 1;
    }
    assert(d.subrange(0, i - start) =~= d);
    if neg {
        if acc <= 0x8000_0000_0000_0000u64 {
            if acc == 0x8000_0000_0000_0000u64 {
                Some(i64::MIN)
            } else {
                Some(0i64 - (acc as i64))
            }
        } else {
            None
        }
    } else {
        if acc <= 0x7fff_ffff_ffff_ffffu64 {
            Some(acc as i64)
        } else {
            None
        }
    }
}

/// Whether `v` holds a string equal to `s`.
pub fn strings_contain(v: &Vec<String>, s: &str) -> (r: bool)
    ensures
        r == strings_view(v@).contains(s@),
{
    let mut i: usize = 0;
    while i < v.len()
        invariant
            i <= v@.len(),
            forall|j: int| 0 <= j < i ==> v@[j]@ != s@,
        decreases v@.len() - i,
    {
        if str_eq(v[i].as_str(), s) {
            assert(strings_view(v@)[i as int] == s@);
            return true;
        }
        i = i + 1;
    }
    assert forall|j: int| 0 <= j < strings_view(v@).len() implies strings_view(v@)[j] != s@ by {
        assert(v@[j]@ != s@);
    }
    false
}

/// `v` with repeated strings dropped, first occurrences kept in order.
pub fn dedup_strings(v: &Vec<String>) -> (r: Vec<String>)
    ensures
        strings_view(r@).no_duplicates(),
        strings_view(r@).to_set() == strings_view(v@).to_set(),
{
    let mut r: Vec<String> = Vec::new();
    let mut i: usize = 0;
    assert(strings_view(r@).to_set() =~= strings_view(v@).subrange(0, 0).to_set());
    while i < v.len()
        invariant
            i <= v@.len(),
            strings_view(r@).no_duplicates(),
            strings_view(r@).to_set() == strings_view(v@).subrange(0, i as int).to_set(),
        decreases v@.len() - i,
    {
        let ghost before = strings_view(r@);
        let ghost pre = strings_view(v@).subrange(0, i as int);
        let ghost nxt = strings_view(v@).subrange(0, i + 1);
        assert(nxt =~= pre.push(v@[i as int]@));
        if !strings_contain(&r, v[i].as_str()) {
            r.push(v[i].clone());
            assert(strings_view(r@) =~= before.push(v@[i as int]@));
            assert(strings_view(r@).to_set() =~= nxt.to_set()) by {
                assert forall|x: Seq<char>| strings_view(r@).to_set().contains(x) <==> nxt.to_set().contains(x) by {
                    if strings_view(r@).contains(x) {
                        let k = choose|k: int| 0 <= k < strings_view(r@).len() && strings_view(r@)[k] == x;
                        if k < before.len() {
                            assert(before.contains(x));
                            assert(pre.to_set().contains(x));
                            let m = choose|m: int| 0 <= m < pre.len() && pre[m] == x;
                            assert(nxt[m] == x);
                        } else {
                            assert(nxt[i as int] == x);
                        }
                    }
                    if nxt.contains(x) {
                        let m = choose|m: int| 0 <= m < nxt.len() && nxt[m] == x;
                        if m < i {
                            assert(pre[m] == x);
                            assert(pre.to_set().contains(x));
                            assert(before.to_set().contains(x));
                            let k = choose|k: int| 0 <= k < before.len() && before[k] == x;
                            assert(strings_view(r@)[k] == x);
                        } else {
                            assert(strings_view(r@)[before.len() as int] == x);
                        }
                    }
                }
            }
        } else {
            assert(strings_view(r@).to_set() =~= nxt.to_set()) by {
                assert(before.contains(v@[i as int]@));
                assert forall|x: Seq<char>| before.to_set().contains(x) <==> nxt.to_set().contains(x) by {
                    if before.contains(x) {
                        assert(pre.to_set().contains(x));
                        let m = choose|m: int| 0 <= m < pre.len() && pre[m] == x;
                        assert(nxt[m] == x);
                    }
                    if nxt.contains(x) {
                        let m = choose|m: int| 0 <= m < nxt.len() && nxt[m] == x;
                        if m < i {
                            assert(pre[m] == x);
                            assert(pre.to_set().contains(x));
                        }
                    }
                }
            }
        }
        i = i + 1;
    }
    assert(strings_view(v@).subrange(0, v@.len() as int) =~= strings_view(v@));
    r
}


// ── Case ───────────────────────────────────────────────────────────

/// The Unicode lowercase form of a string, as `str::to_lowercase` computes it.
pub uninterp spec fn lowercase_of(s: Seq<char>) -> Seq<char>;

/// Every character is ASCII.
pub open spec fn is_ascii_text(s: Seq<char>) -> bool {
    forall|i: int| 0 <= i < s.len() ==> (#[trigger] s[i] as u32) < 128
}

/// ASCII lowercase: `A`–`Z` become `a`–`z`, every other character stays.
pub open spec fn ascii_lower(s: Seq<char>) -> Seq<char> {
    Seq::new(s.len(), |i: int| if 'A' <= s[i] <= 'Z' { ((s[i] as u32) + 32) as char } else { s[i] })
}

/// ASCII uppercase: `a`–`z` become `A`–`Z`, every other character stays.
pub open spec fn ascii_upper(s: Seq<char>) -> Seq<char> {
    Seq::new(s.len(), |i: int| if 'a' <= s[i] <= 'z' { ((s[i] as u32) - 32) as char } else { s[i] })
}

/// `str::to_lowercase` from std: the lowercase form of `s`, named by
/// [`lowercase_of`] (Unicode case mapping is not restated here); on ASCII
/// text it is ASCII lowercase, the Unicode lowercase mapping of the ASCII
/// letters.
#[verifier::external_body]
pub(crate) fn to_lowercase(s: &str) -> (r: String)
    ensures
        r@ == lowercase_of(s@),
        is_ascii_text(s@) ==> r@ == ascii_lower(s@),
{
    s.to_lowercase()
}

// ── Paths ──────────────────────────────────────────────────────────

/// A path component that names something (not empty, not the current
/// directory).
pub open spec fn is_named_piece(p: Seq<char>) -> bool {
    p.len() > 0 && p != "."@
}

/// The last naming component among `pieces`.
pub open spec fn last_named(pieces: Seq<Seq<char>>) -> Option<Seq<char>>
    decreases pieces.len(),
{
    if pieces.len() == 0 {
        None
    } else if is_named_piece(pieces.last()) {
        Some(pieces.last())
    } else {
        last_named(pieces.drop_last())
    }
}

/// The final component of a `/`-separated path, as `Path::file_name`
/// gives it: empty and `.` components are skipped, and a final `..` has
/// no file name.
pub open spec fn file_name_spec(path: Seq<char>) -> Option<Seq<char>> {
    match last_named(split_spec(path, '/')) {
        Some(p) => if p == ".."@ { None } else { Some(p) },
        None => None,
    }
}

/// Index of the last `.` in `n`, or -1.
pub open spec fn last_dot(n: Seq<char>) -> int
    decreases n.len(),
{
    if n.len() == 0 {
        -1
    } else if n.last() == '.' {
        n.len() - 1
    } else {
        last_dot(n.drop_last())
    }
}

/// The extension of a file name: the text after its last `.`, unless
/// that dot starts the name or there is none.
pub open spec fn ext_of_name(n: Seq<char>) -> Option<Seq<char>> {
    let k = last_dot(n);
    if k <= 0 {
        None
    } else {
        Some(n.subrange(k + 1, n.len() as int))
    }
}

/// The extension of a path, as `Path::extension` gives it.
pub open spec fn extension_spec(path: Seq<char>) -> Option<Seq<char>> {
    match file_name_spec(path) {
        Some(n) => ext_of_name(n),
        None => None,
    }
}

proof fn lemma_last_dot_bounds(n: Seq<char>)
    ensures
        -1 <= last_dot(n) < n.len(),
        last_dot(n) >= 0 ==> n[last_dot(n)] == '.',
        forall|j: int| last_dot(n) < j < n.len() ==> n[j] != '.',
    decreases n.len(),
{
    if n.len() > 0 && n.last() != '.' {
        lemma_last_dot_bounds(n.drop_last());
        assert forall|j: int| last_dot(n) < j < n.len() implies n[j] != '.' by {
            if j < n.len() - 1 {
                assert(n.drop_last()[j] == n[j]);
            }
        }
    }
}

/// The final component of `path` (see [`file_name_spec`]).
pub fn file_name(path: &str) -> (r: Option<String>)
    ensures
        match r {
            Some(s) => file_name_spec(path@) == Some(s@),
            None => file_name_spec(path@) is None,
        },
{
    let pieces = split_str(path, '/');
    let ghost pv = strings_view(pieces@);
    let mut i: usize = pieces.len();
    assert(pv.subrange(0, pv.len() as int) =~= pv);
    while i > 0
        invariant
            pv == strings_view(pieces@),
            pv == split_spec(path@, '/'),
            i <= pieces@.len(),
            last_named(pv) == last_named(pv.subrange(0, i as int)),
        decreases i,
    {
        let ghost pre = pv.subrange(0, i as int);
        assert(pre.drop_last() =~= pv.subrange(0, i - 1));
        assert(pre.last() == pieces@[i - 1]@);
        let p = pieces[i - 1].as_str();
        if p.unicode_len() > 0 && !str_eq(p, ".") {
            if str_eq(p, "..") {
                return None;
            }
            return Some(to_owned_string(p));
        }
        i = i - 1;
    }
    assert(pv.subrange(0, 0).len() == 0);
    None
}

/// The extension of `path` (see [`extension_spec`]).
pub fn extension(path: &str) -> (r: Option<String>)
    ensures
        match r {
            Some(s) => extension_spec(path@) == Some(s@),
            None => extension_spec(path@) is None,
        },
{
    match file_name(path) {
        None => None,
        Some(name) => {
            let cs = chars_of(name.as_str());
            proof { lemma_last_dot_bounds(cs@); }
            let mut i: usize = cs.len();
            while i > 0
                invariant
                    cs@ == name@,
                    file_name_spec(path@) == Some(name@),
                    i <= cs@.len(),
                    forall|j: int| i <= j < cs@.len() ==> cs@[j] != '.',
                    -1 <= last_dot(cs@) < cs@.len(),
                    last_dot(cs@) >= 0 ==> cs@[last_dot(cs@)] == '.',
                    forall|j: int| last_dot(cs@) < j < cs@.len() ==> cs@[j] != '.',
                decreases i,
            {
                if cs[i - 1] == '.' {
                    assert(last_dot(cs@) == i - 1);
                    if i - 1 == 0 {
                        return None;
                    }
                    return Some(string_from_range(cs.as_slice(), i, cs.len()));
                }
                i = i - 1;
            }
            assert(last_dot(cs@) == -1);
            None
        },
    }
}


// ── String order ───────────────────────────────────────────────────

/// Strict order of strings by code points, lexicographically (the order
/// of `String`'s `Ord`).
pub open spec fn str_lt(a: Seq<char>, b: Seq<char>) -> bool
    decreases a.len(),
{
    if a.len() == 0 {
        b.len() > 0
    } else if b.len() == 0 {
        false
    } else if a[0] != b[0] {
        a[0] < b[0]
    } else {
        str_lt(a.drop_first(), b.drop_first())
    }
}

/// Strictly increasing in [`str_lt`]: sorted, each string once.
pub open spec fn strictly_sorted(s: Seq<Seq<char>>) -> bool {
    forall|i: int, j: int| 0 <= i < j < s.len() ==> str_lt(#[trigger] s[i], #[trigger] s[j])
}

/// [`str_lt`] is a strict total order.
pub proof fn lemma_str_lt_order(a: Seq<char>, b: Seq<char>)
    ensures
        !str_lt(a, a),
        str_lt(a, b) ==> !str_lt(b, a),
        a != b ==> str_lt(a, b) || str_lt(b, a),
    decreases a.len(),
{
    if a.len() > 0 && b.len() > 0 {
        lemma_str_lt_order(a.drop_first(), b.drop_first());
        if a[0] == b[0] && a != b {
            assert(a =~= seq![a[0]] + a.drop_first());
            assert(b =~= seq![b[0]] + b.drop_first());
        }
    } else if a.len() > 0 {
        lemma_str_lt_order(a.drop_first(), a.drop_first());
    } else if b.len() == 0 {
        assert(a =~= b);
    }
}

/// [`str_lt`] is transitive.
pub proof fn lemma_str_lt_trans(a: Seq<char>, b: Seq<char>, c: Seq<char>)
    requires
        str_lt(a, b),
        str_lt(b, c),
    ensures
        str_lt(a, c),
    decreases a.len(),
{
    if a.len() > 0 && b.len() > 0 && c.len() > 0 {
        if a[0] == b[0] && b[0] == c[0] {
            lemma_str_lt_trans(a.drop_first(), b.drop_first(), c.drop_first());
        }
    }
}

/// Compares two strings by [`str_lt`].
pub fn str_less(a: &str, b: &str) -> (r: bool)
    ensures
        r == str_lt(a@, b@),
{
    let x = chars_of(a);
    let y = chars_of(b);
    let mut i: usize = 0;
    assert(a@.subrange(0, a@.len() as int) =~= a@);
    assert(b@.subrange(0, b@.len() as int) =~= b@);
    while i < x.len() && i < y.len()
        invariant
            x@ == a@,
            y@ == b@,
            i <= x@.len(),
            i <= y@.len(),
            str_lt(a@, b@) == str_lt(a@.subrange(i as int, a@.len() as int), b@.subrange(i as int, b@.len() as int)),
        decreases x@.len() - i,
    {
        let ghost xa = a@.subrange(i as int, a@.len() as int);
        let ghost yb = b@.subrange(i as int, b@.len() as int);
        assert(xa.drop_first() =~= a@.subrange(i + 1, a@.len() as int));
        assert(yb.drop_first() =~= b@.subrange(i + 1, b@.len() as int));
        let cx = x[i];
        let cy = y[i];
        assert(xa[0] == cx && yb[0] == cy);
        if cx != cy {
            return cx < cy;
        }
        i = i + 1;
    }
    assert(a@.subrange(i as int, a@.len() as int).len() == a@.len() - i);
    assert(b@.subrange(i as int, b@.len() as int).len() == b@.len() - i);
    i >= x.len() && i < y.len()
}

/// Adds `s` to a strictly sorted vector, keeping it strictly sorted; the
/// set of strings grows by `s`.
pub fn insert_sorted(v: &mut Vec<String>, s: &str)
    requires
        strictly_sorted(strings_view(old(v)@)),
    ensures
        strictly_sorted(strings_view(final(v)@)),
        strings_view(final(v)@).to_set() == strings_view(old(v)@).to_set().insert(s@),
{
    let ghost before = strings_view(v@);
    let mut p: usize = 0;
    while p < v.len() && str_less(v[p].as_str(), s)
        invariant
            before == strings_view(v@),
            strictly_sorted(before),
            p <= v@.len(),
            forall|k: int| 0 <= k < p ==> str_lt(#[trigger] before[k], s@),
        decreases v@.len() - p,
    {
        p = p + 1;
    }
    if p < v.len() && str_eq(v[p].as_str(), s) {
        assert(before.to_set().contains(s@)) by {
            assert(before[p as int] == s@);
        }
        assert(before.to_set().insert(s@) =~= before.to_set());
        return;
    }
    v.insert(p, to_owned_string(s));
    proof {
        let after = strings_view(v@);
        assert(after =~= before.insert(p as int, s@));
        if p < before.len() {
            lemma_str_lt_order(before[p as int], s@);
        }
        assert forall|a: int, b: int| 0 <= a < b < after.len() implies str_lt(#[trigger] after[a], #[trigger] after[b]) by {
            if b < p {
            } else if a < p && b == p {
            } else if a < p && b > p {
                if b - 1 > p {
                    lemma_str_lt_trans(s@, before[p as int], before[b - 1]);
                }
                lemma_str_lt_trans(before[a], s@, before[b - 1]);
            } else if a == p {
                if b - 1 > p {
                    lemma_str_lt_trans(s@, before[p as int], before[b - 1]);
                }
            } else {
            }
        }
        assert forall|x: Seq<char>| after.to_set().contains(x) <==> before.to_set().insert(s@).contains(x) by {
            if after.contains(x) {
                let k = choose|k: int| 0 <= k < after.len() && after[k] == x;
                if k < p {
                    assert(before[k] == x);
                } else if k > p {
                    assert(before[k - 1] == x);
                }
            }
            if before.contains(x) {
                let k = choose|k: int| 0 <= k < before.len() && before[k] == x;
                if k < p {
                    assert(after[k] == x);
                } else {
                    assert(after[k + 1] == x);
                }
            }
            if x == s@ {
                assert(after[p as int] == x);
            }
        }
        assert(after.to_set() =~= before.to_set().insert(s@));
    }
}


// ── Path components ────────────────────────────────────────────────

/// The naming pieces among `ps`, in order.
pub open spec fn named_pieces(ps: Seq<Seq<char>>) -> Seq<Seq<char>>
    decreases ps.len(),
{
    if ps.len() == 0 {
        Seq::empty()
    } else {
        let pre = named_pieces(ps.drop_last());
        if is_named_piece(ps.last()) {
            pre.push(ps.last())
        } else {
            pre
        }
    }
}

/// The path is relative and starts with a `.` piece (`.` or `./...`),
/// which `Path::components` keeps as a current-directory component.
pub open spec fn starts_at_cur_dir(p: Seq<char>) -> bool {
    p.len() > 0 && p[0] == '.' && (p.len() == 1 || p[1] == '/')
}

/// The components of a `/`-separated path, as `Path::components` names
/// them: empty and `.` pieces dropped, but for a leading `.` piece of a
/// relative path, which stays as the component `.`.
pub open spec fn components_spec(p: Seq<char>) -> Seq<Seq<char>> {
    if starts_at_cur_dir(p) {
        seq!["."@] + named_pieces(split_spec(p, '/'))
    } else {
        named_pieces(split_spec(p, '/'))
    }
}

/// The path starts at the root.
pub open spec fn is_absolute(p: Seq<char>) -> bool {
    p.len() > 0 && p[0] == '/'
}

/// The components of `path` below `root`, as `Path::strip_prefix` followed
/// by `components` gives them; `None` when `root` is not a prefix.
pub open spec fn relative_components(path: Seq<char>, root: Seq<char>) -> Option<Seq<Seq<char>>> {
    let pc = components_spec(path);
    let rc = components_spec(root);
    if is_absolute(path) == is_absolute(root) && rc.len() <= pc.len() && pc.subrange(0, rc.len() as int) == rc {
        Some(pc.subrange(rc.len() as int, pc.len() as int))
    } else {
        None
    }
}

/// The components of `p`.
pub fn components(p: &str) -> (r: Vec<String>)
    ensures
        strings_view(r@) == components_spec(p@),
{
    let pieces = split_str(p, '/');
    let ghost pv = strings_view(pieces@);
    let n = p.unicode_len();
    let cur = n > 0 && p.get_char(0) == '.' && (n == 1 || p.get_char(1) == '/');
    let mut r: Vec<String> = Vec::new();
    if cur {
        r.push(to_owned_string("."));
    }
    let ghost head: Seq<Seq<char>> = if cur { seq!["."@] } else { Seq::empty() };
    proof { reveal_strlit("."); }
    let mut i: usize = 0;
    assert(strings_view(r@) =~= head + named_pieces(pv.subrange(0, 0)));
    while i < pieces.len()
        invariant
            pv == strings_view(pieces@),
            i <= pieces@.len(),
            strings_view(r@) == head + named_pieces(pv.subrange(0, i as int)),
        decreases pieces@.len() - i,
    {
        let ghost nxt = pv.subrange(0, i + 1);
        assert(nxt.drop_last() =~= pv.subrange(0, i as int));
        assert(nxt.last() == pieces@[i as int]@);
        let piece = pieces[i].as_str();
        if piece.unicode_len() > 0 && !str_eq(piece, ".") {
            let ghost before = strings_view(r@);
            r.push(to_owned_string(piece));
            assert(strings_view(r@) =~= before.push(piece@));
        }
        i = i + 1;
    }
    assert(pv.subrange(0, pv.len() as int) =~= pv);
    r
}

/// The components of a path with its root: an absolute path starts with
/// a `/` component.
pub open spec fn rooted_components(p: Seq<char>) -> Seq<Seq<char>> {
    if is_absolute(p) { seq!["/"@] + components_spec(p) } else { components_spec(p) }
}

/// The components of `p` with its root (see [`rooted_components`]).
pub fn rooted(p: &str) -> (r: Vec<String>)
    ensures
        strings_view(r@) == rooted_components(p@),
{
    let c = components(p);
    if p.unicode_len() > 0 && p.get_char(0) == '/' {
        let mut r: Vec<String> = vec![to_owned_string("/")];
        let mut i: usize = 0;
        while i < c.len()
            invariant
                i <= c@.len(),
                strings_view(r@) == seq!["/"@] + strings_view(c@).subrange(0, i as int),
            decreases c@.len() - i,
        {
            push_string(&mut r, c[i].as_str());
            assert(strings_view(r@) =~= seq!["/"@] + strings_view(c@).subrange(0, i + 1));
            i = i + 1;
        }
        assert(strings_view(c@).subrange(0, c@.len() as int) =~= strings_view(c@));
        r
    } else {
        c
    }
}

fn starts_with_slash(p: &str) -> (r: bool)
    ensures
        r == is_absolute(p@),
{
    p.unicode_len() > 0 && p.get_char(0) == '/'
}

/// The components of `path` below `root` (see [`relative_components`]).
pub fn strip_components(path: &str, root: &str) -> (r: Option<Vec<String>>)
    ensures
        match r {
            Some(v) => relative_components(path@, root@) == Some(strings_view(v@)),
            None => relative_components(path@, root@) is None,
        },
{
    let pc = components(path);
    let rc = components(root);
    if starts_with_slash(path) != starts_with_slash(root) || rc.len() > pc.len() {
        return None;
    }
    let ghost pv = strings_view(pc@);
    let ghost rv = strings_view(rc@);
    let mut i: usize = 0;
    while i < rc.len()
        invariant
            pv == strings_view(pc@),
            rv == strings_view(rc@),
            pv == components_spec(path@),
            rv == components_spec(root@),
            rc@.len() <= pc@.len(),
            i <= rc@.len(),
            forall|k: int| 0 <= k < i ==> pv[k] == rv[k],
        decreases rc@.len() - i,
    {
        if !str_eq(pc[i].as_str(), rc[i].as_str()) {
            assert(pv.subrange(0, rv.len() as int)[i as int] != rv[i as int]);
            assert(pv.subrange(0, rv.len() as int) != rv);
            return None;
        }
        i = i + 1;
    }
    assert(pv.subrange(0, rv.len() as int) =~= rv);
    let mut rest: Vec<String> = Vec::new();
    let mut j: usize = rc.len();
    while j < pc.len()
        invariant
            pv == strings_view(pc@),
            rv == strings_view(rc@),
            pv.subrange(0, rv.len() as int) == rv,
            is_absolute(path@) == is_absolute(root@),
            pv == components_spec(path@),
            rv == components_spec(root@),
            rv.len() <= j <= pc@.len(),
            strings_view(rest@) == pv.subrange(rv.len() as int, j as int),
        decreases pc@.len() - j,
    {
        let ghost before = strings_view(rest@);
        let item = to_owned_string(pc[j].as_str());
        assert(item@ == pv[j as int]);
        rest.push(item);
        assert(strings_view(rest@) =~= before.push(pv[j as int]));
        assert(strings_view(rest@) =~= pv.subrange(rv.len() as int, j + 1));
        j = j + 1;
    }
    assert(pv.len() == pc@.len());
    assert(strings_view(rest@) =~= pv.subrange(rv.len() as int, pv.len() as int));
    Some(rest)
}


// ── Joining ────────────────────────────────────────────────────────

/// The pieces joined with `sep` between consecutive ones.
pub open spec fn join_spec(v: Seq<Seq<char>>, sep: Seq<char>) -> Seq<char>
    decreases v.len(),
{
    if v.len() == 0 {
        Seq::empty()
    } else if v.len() == 1 {
        v[0]
    } else {
        join_spec(v.drop_last(), sep) + sep + v.last()
    }
}

/// Joins strings with a separator (like `[String]::join`).
pub fn join_with(v: &Vec<String>, sep: &str) -> (r: String)
    ensures
        r@ == join_spec(strings_view(v@), sep@),
{
    let ghost vv = strings_view(v@);
    let mut r = String::new();
    let mut i: usize = 0;
    assert(r@ =~= join_spec(vv.subrange(0, 0), sep@));
    while i < v.len()
        invariant
            vv == strings_view(v@),
            i <= v@.len(),
            r@ == join_spec(vv.subrange(0, i as int), sep@),
        decreases v@.len() - i,
    {
        let ghost nxt = vv.subrange(0, i + 1);
        assert(nxt.drop_last() =~= vv.subrange(0, i as int));
        assert(nxt.last() == v@[i as int]@);
        if i > 0 {
            push_str(&mut r, sep);
        }
        push_str(&mut r, v[i].as_str());
        proof {
            if i == 0 {
                assert(r@ =~= nxt[0]);
            }
        }
        i = i + 1;
    }
    assert(vv.subrange(0, v@.len() as int) =~= vv);
    r
}

/// `Path::join`: an absolute `d` replaces `root`; otherwise `d` is
/// appended below `root` with one separator.
pub open spec fn path_join_spec(root: Seq<char>, d: Seq<char>) -> Seq<char> {
    if is_absolute(d) || root.len() == 0 {
        d
    } else if root.last() == '/' {
        root + d
    } else {
        root + "/"@ + d
    }
}

/// Joins a path below a root (see [`path_join_spec`]).
pub fn path_join(root: &str, d: &str) -> (r: String)
    ensures
        r@ == path_join_spec(root@, d@),
{
    let n = root.unicode_len();
    if (d.unicode_len() > 0 && d.get_char(0) == '/') || n == 0 {
        return to_owned_string(d);
    }
    let mut r = to_owned_string(root);
    if root.get_char(n - 1) != '/' {
        push_str(&mut r, "/");
    }
    push_str(&mut r, d);
    r
}


// ── Splitting by a string ──────────────────────────────────────────

/// The first position at or after `from` where `p` occurs in `s`, or -1.
pub open spec fn first_occ_from(s: Seq<char>, p: Seq<char>, from: int) -> int
    decreases s.len() + 1 - from,
{
    if from < 0 || from + p.len() > s.len() {
        -1
    } else if occurs_at(p, s, from) {
        from
    } else {
        first_occ_from(s, p, from + 1)
    }
}

/// Pieces of `s` from `start` on, between occurrences of the non-empty `p`.
pub open spec fn split_from(s: Seq<char>, p: Seq<char>, start: int) -> Seq<Seq<char>>
    decreases s.len() - start,
{
    let i = first_occ_from(s, p, start);
    if p.len() > 0 && start <= i && i + p.len() <= s.len() {
        seq![s.subrange(start, i)] + split_from(s, p, i + p.len())
    } else {
        seq![s.subrange(start, s.len() as int)]
    }
}

/// Pieces of `s` between occurrences of `p`, as `str::split` with a string
/// pattern gives them; the empty pattern matches at every character
/// boundary.
pub open spec fn split_by_spec(s: Seq<char>, p: Seq<char>) -> Seq<Seq<char>> {
    if p.len() == 0 {
        seq![Seq::<char>::empty()] + Seq::new(s.len(), |i: int| seq![s[i]]) + seq![Seq::<char>::empty()]
    } else {
        split_from(s, p, 0)
    }
}

proof fn lemma_first_occ_bounds(s: Seq<char>, p: Seq<char>, from: int)
    ensures
        first_occ_from(s, p, from) == -1 || (from <= first_occ_from(s, p, from) && first_occ_from(s, p, from) + p.len() <= s.len()),
    decreases s.len() + 1 - from,
{
    if !(from < 0 || from + p.len() > s.len()) && !occurs_at(p, s, from) {
        lemma_first_occ_bounds(s, p, from + 1);
    }
}

/// Splits `s` at every occurrence of `p` (see [`split_by_spec`]).
pub fn split_by(s: &str, p: &str) -> (r: Vec<String>)
    ensures
        strings_view(r@) == split_by_spec(s@, p@),
{
    let cs = chars_of(s);
    let ps = chars_of(p);
    let mut pieces: Vec<String> = Vec::new();
    if ps.len() == 0 {
        pieces.push(String::new());
        let mut i: usize = 0;
        while i < cs.len()
            invariant
                cs@ == s@,
                i <= cs@.len(),
                strings_view(pieces@) == seq![Seq::<char>::empty()] + Seq::new(i as nat, |j: int| seq![s@[j]]),
            decreases cs@.len() - i,
        {
            let mut one = String::new();
            push_char(&mut one, cs[i]);
            assert(one@ =~= seq![s@[i as int]]);
            let ghost before = strings_view(pieces@);
            let ghost ov = one@;
            pieces.push(one);
            assert(strings_view(pieces@) =~= before.push(ov));
            assert(strings_view(pieces@) =~= seq![Seq::<char>::empty()] + Seq::new((i + 1) as nat, |j: int| seq![s@[j]]));
            i = i + 1;
        }
        let ghost before = strings_view(pieces@);
        pieces.push(String::new());
        assert(strings_view(pieces@) =~= split_by_spec(s@, p@));
        return pieces;
    }
    let n = cs.len();
    let m = ps.len();
    let mut start: usize = 0;
    let mut j: usize = 0;
    assert(strings_view(pieces@) + split_from(s@, p@, 0) =~= split_from(s@, p@, 0));
    while j < n && m <= n - j
        invariant
            cs@ == s@,
            ps@ == p@,
            n == cs@.len(),
            m == ps@.len(),
            m > 0,
            start <= j <= n,
            first_occ_from(s@, p@, start as int) == first_occ_from(s@, p@, j as int),
            strings_view(pieces@) + split_from(s@, p@, start as int) == split_from(s@, p@, 0),
        decreases n - j, n - start,
    {
        if chars_match_at(cs.as_slice(), j, ps.as_slice()) {
            assert(first_occ_from(s@, p@, j as int) == j);
            let piece = string_from_range(cs.as_slice(), start, j);
            let ghost before = strings_view(pieces@);
            pieces.push(piece);
            assert(strings_view(pieces@) =~= before.push(s@.subrange(start as int, j as int)));
            assert(split_from(s@, p@, start as int) == seq![s@.subrange(start as int, j as int)] + split_from(s@, p@, j + m));
            assert(strings_view(pieces@) + split_from(s@, p@, j + m) =~= before + split_from(s@, p@, start as int));
            start = j + m;
            j = j + m;
        } else {
            assert(first_occ_from(s@, p@, j as int) == first_occ_from(s@, p@, j + 1));
            j = j + 1;
        }
    }
    assert(first_occ_from(s@, p@, j as int) == -1);
    let piece = string_from_range(cs.as_slice(), start, n);
    let ghost before = strings_view(pieces@);
    pieces.push(piece);
    assert(split_from(s@, p@, start as int) == seq![s@.subrange(start as int, n as int)]);
    assert(strings_view(pieces@) =~= before + split_from(s@, p@, start as int));
    pieces
}


// ── Trimming ───────────────────────────────────────────────────────

/// Unicode `White_Space`, the set `char::is_whitespace` tests.
pub open spec fn is_white(c: char) -> bool {
    ('\u{9}' <= c <= '\u{d}') || c == ' ' || c == '\u{85}' || c == '\u{a0}' || c == '\u{1680}'
        || ('\u{2000}' <= c <= '\u{200a}') || c == '\u{2028}' || c == '\u{2029}' || c == '\u{202f}'
        || c == '\u{205f}' || c == '\u{3000}'
}

/// Whether `c` is Unicode white space.
pub fn is_white_char(c: char) -> (r: bool)
    ensures
        r == is_white(c),
{
    ('\u{9}' <= c && c <= '\u{d}') || c == ' ' || c == '\u{85}' || c == '\u{a0}' || c == '\u{1680}'
        || ('\u{2000}' <= c && c <= '\u{200a}') || c == '\u{2028}' || c == '\u{2029}' || c == '\u{202f}'
        || c == '\u{205f}' || c == '\u{3000}'
}

/// How many white space characters `s` starts with.
pub open spec fn white_prefix(s: Seq<char>) -> nat
    decreases s.len(),
{
    if s.len() == 0 || !is_white(s[0]) {
        0
    } else {
        1 + white_prefix(s.drop_first())
    }
}

/// How many white space characters `s` ends with.
pub open spec fn white_suffix(s: Seq<char>) -> nat
    decreases s.len(),
{
    if s.len() == 0 || !is_white(s.last()) {
        0
    } else {
        1 + white_suffix(s.drop_last())
    }
}

/// `s` without its leading and trailing white space.
pub open spec fn trim_spec(s: Seq<char>) -> Seq<char> {
    let a = white_prefix(s);
    if a >= s.len() {
        Seq::empty()
    } else {
        s.subrange(a as int, s.len() - white_suffix(s))
    }
}

/// `s` without leading and trailing white space (see [`trim_spec`]), as
/// `str::trim` gives it.
pub(crate) fn trim(s: &str) -> (r: &str)
    ensures
        r@ == trim_spec(s@),
        r@.len() <= s@.len(),
{
    let n = s.unicode_len();
    let mut a: usize = 0;
    assert(s@.subrange(0, n as int) =~= s@);
    while a < n && is_white_char(s.get_char(a))
        invariant
            n == s@.len(),
            a <= n,
            white_prefix(s@) == a + white_prefix(s@.subrange(a as int, n as int)),
        decreases n - a,
    {
        let ghost t = s@.subrange(a as int, n as int);
        assert(t[0] == s@[a as int]);
        assert(t.drop_first() =~= s@.subrange(a + 1, n as int));
        a = a + 1;
    }
    if a >= n {
        assert(s@.subrange(a as int, n as int).len() == 0);
        return s.substring_char(n, n);
    }
    assert(s@.subrange(a as int, n as int)[0] == s@[a as int]);
    assert(white_prefix(s@) == a);
    let mut b: usize = n;
    while b > 0 && is_white_char(s.get_char(b - 1))
        invariant
            n == s@.len(),
            a < n,
            !is_white(s@[a as int]),
            a + 1 <= b <= n,
            white_suffix(s@) == (n - b) + white_suffix(s@.subrange(0, b as int)),
        decreases b,
    {
        let ghost t = s@.subrange(0, b as int);
        assert(t.last() == s@[b - 1]);
        assert(t.drop_last() =~= s@.subrange(0, b - 1));
        b = b - 1;
    }
    assert(b > 0);
    assert(s@.subrange(0, b as int).last() == s@[b - 1]);
    assert(white_suffix(s@) == n - b);
    s.substring_char(a, b)
}


/// A copy of a list of strings.
pub fn copy_strings(v: &Vec<String>) -> (r: Vec<String>)
    ensures
        strings_view(r@) == strings_view(v@),
{
    let mut r: Vec<String> = Vec::new();
    let mut i: usize = 0;
    while i < v.len()
        invariant
            i <= v@.len(),
            strings_view(r@) == strings_view(v@).subrange(0, i as int),
        decreases v@.len() - i,
    {
        let ghost before = strings_view(r@);
        r.push(to_owned_string(v[i].as_str()));
        assert(strings_view(r@) =~= before.push(v@[i as int]@));
        assert(strings_view(v@).subrange(0, i + 1) =~= strings_view(v@).subrange(0, i as int).push(v@[i as int]@));
        i = i + 1;
    }
    assert(strings_view(v@).subrange(0, v@.len() as int) =~= strings_view(v@));
    r
}


/// Appends a copy of `s` to a list of strings.
pub fn push_string(v: &mut Vec<String>, s: &str)
    ensures
        strings_view(final(v)@) == strings_view(old(v)@).push(s@),
{
    let ghost before = strings_view(v@);
    v.push(to_owned_string(s));
    assert(strings_view(v@) =~= before.push(s@));
}

} // verus!
