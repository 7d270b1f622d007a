//! Character-level text utilities shared by the formatting and parsing code.
use vstd::prelude::*;

verus! {

/// `String::push` appends one character.
pub assume_specification[ String::push ](s: &mut String, ch: char)
    ensures
        final(s)@ == old(s)@.push(ch),
;

/// `String::push_str` appends a string slice.
pub assume_specification[ String::push_str ](s: &mut String, other: &str)
    ensures
        final(s)@ == old(s)@ + other@,
;

/// First position `k >= i` with `s[k] == c`, if any.
pub open spec fn index_of_from(s: Seq<char>, c: char, i: int) -> Option<int>
    decreases s.len() - i,
{
    if i < 0 || i >= s.len() {
        None
    } else if s[i] == c {
        Some(i)
    } else {
        index_of_from(s, c, i + 1)
    }
}

/// First position of `c` in `s`.
pub open spec fn index_of(s: Seq<char>, c: char) -> Option<int> {
    index_of_from(s, c, 0)
}

pub proof fn lemma_index_of_from(s: Seq<char>, c: char, i: int)
    requires
        0 <= i,
    ensures
        match index_of_from(s, c, i) {
            Some(k) => i <= k < s.len() && s[k] == c && forall|j: int| i <= j < k ==> s[j] != c,
            None => forall|j: int| i <= j < s.len() ==> s[j] != c,
        },
    decreases s.len() - i,
{
    if i < s.len() && s[i] != c {
        lemma_index_of_from(s, c, i + 1);
    }
}

/// `p` occurs in `s` starting at position `i`.
pub open spec fn matches_at(s: Seq<char>, p: Seq<char>, i: int) -> bool {
    0 <= i && i + p.len() <= s.len() && s.subrange(i, i + p.len()) =~= p
}

/// First position `k >= i` at which `p` occurs in `s`, if any.
pub open spec fn find_from(s: Seq<char>, p: Seq<char>, i: int) -> Option<int>
    decreases s.len() - i,
{
    if i < 0 || i + p.len() > s.len() {
        None
    } else if matches_at(s, p, i) {
        Some(i)
    } else {
        find_from(s, p, i + 1)
    }
}

/// First position at which `p` occurs in `s`.
pub open spec fn find(s: Seq<char>, p: Seq<char>) -> Option<int> {
    find_from(s, p, 0)
}

/// `p` occurs somewhere in `s`.
pub open spec fn contains(s: Seq<char>, p: Seq<char>) -> bool {
    find(s, p) is Some
}

/// `s` begins with `p`.
pub open spec fn starts_with(s: Seq<char>, p: Seq<char>) -> bool {
    matches_at(s, p, 0)
}

pub proof fn lemma_find_from(s: Seq<char>, p: Seq<char>, i: int)
    requires
        0 <= i,
    ensures
        match find_from(s, p, i) {
            Some(k) => i <= k && k + p.len() <= s.len() && matches_at(s, p, k) && forall|j: int|
                i <= j < k ==> !matches_at(s, p, j),
            None => forall|j: int| i <= j ==> !matches_at(s, p, j),
        },
    decreases s.len() - i,
{
    if i + p.len() <= s.len() && !matches_at(s, p, i) {
        lemma_find_from(s, p, i + 1);
    }
}

/// The characters of `s`, in order.
pub fn chars_of(s: &str) -> (v: Vec<char>)
    ensures
        v@ == s@,
{
    let mut v: Vec<char> = Vec::new();
    for c in it: s.chars()
        invariant
            v@ == it.seq().take(it.index() as int),
    {
        v.push(c);
    }
    v
}

/// A `String` holding the characters of `v` from `lo` to `hi`.
pub fn string_of_range(v: &Vec<char>, lo: usize, hi: usize) -> (s: String)
    requires
        lo <= hi <= v.len(),
    ensures
        s@ == v@.subrange(lo as int, hi as int),
{
    let mut s = String::new();
    let mut i = lo;
    while i < hi
        invariant
            lo <= i <= hi <= v.len(),
            s@ == v@.subrange(lo as int, i as int),
        decreases hi - i,
    {
        s.push(v[i]);
        i += 1;
    }
    s
}

/// A `String` holding all characters of `v`.
pub fn string_of(v: &Vec<char>) -> (s: String)
    ensures
        s@ == v@,
{
    let s = string_of_range(v, 0, v.len());
    assert(v@.subrange(0, v@.len() as int) =~= v@);
    s
}

/// Appends the characters of `v` from `lo` to `hi` to `out`.
pub fn push_range(out: &mut String, v: &Vec<char>, lo: usize, hi: usize)
    requires
        lo <= hi <= v.len(),
    ensures
        final(out)@ == old(out)@ + v@.subrange(lo as int, hi as int),
{
    let mut i = lo;
    while i < hi
        invariant
            lo <= i <= hi <= v.len(),
            out@ == old(out)@ + v@.subrange(lo as int, i as int),
        decreases hi - i,
    {
        out.push(v[i]);
        i += 1;
    }
}

/// First position `k >= from` with `v[k] == c`.
pub fn find_char(v: &Vec<char>, from: usize, c: char) -> (r: Option<usize>)
    ensures
        r == (match index_of_from(v@, c, from as int) {
            Some(k) => Some(k as usize),
            None => None::<usize>,
        }),
        r matches Some(k) ==> from <= k < v.len(),
{
    proof {
        lemma_index_of_from(v@, c, from as int);
    }
    let mut i = from;
    while i < v.len()
        invariant
            from <= i,
            index_of_from(v@, c, from as int) == index_of_from(v@, c, i as int),
        decreases v.len() - i,
    {
        if v[i] == c {
            return Some(i);
        }
        i += 1;
    }
    None
}

/// Whether `p` occurs in `v` at position `i`.
pub fn matches_at_exec(v: &Vec<char>, p: &Vec<char>, i: usize) -> (b: bool)
    ensures
        b == matches_at(v@, p@, i as int),
{
    if i > v.len() || p.len() > v.len() - i {
        return false;
    }
    let mut j: usize = 0;
    while j < p.len()
        invariant
            i + p.len() <= v.len(),
            j <= p.len(),
            forall|k: int| 0 <= k < j ==> v@[i + k] == p@[k],
        decreases p.len() - j,
    {
        if v[i + j] != p[j] {
            assert(v@.subrange(i as int, i + p.len())[j as int] != p@[j as int]);
            return false;
        }
        j += 1;
    }
    assert(v@.subrange(i as int, i + p.len()) =~= p@);
    true
}

/// First position `k >= from` at which `p` occurs in `v`.
pub fn find_seq(v: &Vec<char>, from: usize, p: &Vec<char>) -> (r: Option<usize>)
    ensures
        r == (match find_from(v@, p@, from as int) {
            Some(k) => Some(k as usize),
            None => None::<usize>,
        }),
        r matches Some(k) ==> from <= k && k + p.len() <= v.len(),
{
    proof {
        lemma_find_from(v@, p@, from as int);
    }
    let mut i = from;
    while i <= v.len() && p.len() <= v.len() - i
        invariant
            from <= i,
            find_from(v@, p@, from as int) == find_from(v@, p@, i as int),
        decreases v.len() + 1 - i,
    {
        if matches_at_exec(v, p, i) {
            return Some(i);
        }
        i += 1;
    }
    None
}

/// Whether two character sequences are equal.
pub fn seq_eq(a: &Vec<char>, b: &Vec<char>) -> (r: bool)
    ensures
        r == (a@ == b@),
{
    if a.len() != b.len() {
        return false;
    }
    let r = matches_at_exec(a, b, 0);
    assert(a@.subrange(0, b@.len() as int) =~= a@);
    r
}

} // verus!

verus! {

/// First position `k` in `[lo, hi)` with `s[k] == c`, if any.
pub open spec fn index_of_in(s: Seq<char>, c: char, lo: int, hi: int) -> Option<int>
    decreases hi - lo,
{
    if lo < 0 || lo >= hi || hi > s.len() {
        None
    } else if s[lo] == c {
        Some(lo)
    } else {
        index_of_in(s, c, lo + 1, hi)
    }
}

pub proof fn lemma_index_of_in(s: Seq<char>, c: char, lo: int, hi: int)
    requires
        0 <= lo,
        hi <= s.len(),
    ensures
        match index_of_in(s, c, lo, hi) {
            Some(k) => lo <= k < hi && s[k] == c && forall|j: int| lo <= j < k ==> s[j] != c,
            None => forall|j: int| lo <= j < hi ==> s[j] != c,
        },
    decreases hi - lo,
{
    if lo < hi && s[lo] != c {
        lemma_index_of_in(s, c, lo + 1, hi);
    }
}

/// `p` occurs at `a` and lies within `[a, b)`.
pub open spec fn starts_with_in(s: Seq<char>, p: Seq<char>, a: int, b: int) -> bool {
    a + p.len() <= b && matches_at(s, p, a)
}

/// The view of an optional string.
pub open spec fn option_view(o: Option<String>) -> Option<Seq<char>> {
    match o {
        Some(s) => Some(s@),
        None => None,
    }
}

/// First position `k` in `[lo, hi)` with `v[k] == c`.
pub fn find_char_in(v: &Vec<char>, lo: usize, hi: usize, c: char) -> (r: Option<usize>)
    requires
        hi <= v.len(),
    ensures
        r == (match index_of_in(v@, c, lo as int, hi as int) {
            Some(k) => Some(k as usize),
            None => None::<usize>,
        }),
        r matches Some(k) ==> lo <= k < hi,
{
    proof {
        lemma_index_of_in(v@, c, lo as int, hi as int);
    }
    let mut i = lo;
    while i < hi
        invariant
            lo <= i,
            hi <= v.len(),
            index_of_in(v@, c, lo as int, hi as int) == index_of_in(v@, c, i as int, hi as int),
        decreases hi - i,
    {
        if v[i] == c {
            return Some(i);
        }
        i += 1;
    }
    None
}

/// Whether `p` occurs at `a` within `[a, b)`.
pub fn starts_with_in_exec(v: &Vec<char>, p: &Vec<char>, a: usize, b: usize) -> (r: bool)
    ensures
        r == starts_with_in(v@, p@, a as int, b as int),
{
    if a > b || p.len() > b - a {
        return false;
    }
    matches_at_exec(v, p, a)
}

/// Whether `v` spells the literal `lit`.
pub fn eq_literal(v: &Vec<char>, lit: &str) -> (r: bool)
    ensures
        r == (v@ == lit@),
{
    let l = chars_of(lit);
    seq_eq(v, &l)
}

/// An owned copy of the literal `lit`.
pub fn literal_string(lit: &str) -> (r: String)
    ensures
        r@ == lit@,
{
    lit.to_string()
}

/// An owned copy of `s`.
pub fn copy_string(s: &String) -> (r: String)
    ensures
        r@ == s@,
{
    s.clone()
}

/// An owned copy of an optional string.
pub fn copy_opt_string(s: &Option<String>) -> (r: Option<String>)
    ensures
        option_view(r) == option_view(*s),
{
    match s {
        Some(x) => Some(x.clone()),
        None => None,
    }
}

/// Whether any character of `v` equals `c`.
pub fn contains_char(v: &Vec<char>, c: char) -> (r: bool)
    ensures
        r == (index_of(v@, c) is Some),
        r == v@.contains(c),
{
    proof {
        lemma_index_of_from(v@, c, 0);
    }
    let r = find_char(v, 0, c);
    proof {
        if r is Some {
            assert(v@[r->0 as int] == c);
        }
    }
    r.is_some()
}

/// `s` with every `a` replaced by `b`.
pub open spec fn replace_char(s: Seq<char>, a: char, b: char) -> Seq<char> {
    Seq::new(s.len(), |i: int| if s[i] == a { b } else { s[i] })
}

/// `v` with every `a` replaced by `b`.
pub fn replace_char_exec(v: &Vec<char>, a: char, b: char) -> (r: Vec<char>)
    ensures
        r@ == replace_char(v@, a, b),
{
    let mut r: Vec<char> = Vec::new();
    let mut i: usize = 0;
    while i < v.len()
        invariant
            i <= v.len(),
            r@ =~= replace_char(v@, a, b).take(i as int),
        decreases v.len() - i,
    {
        if v[i] == a {
            r.push(b);
        } else {
            r.push(v[i]);
        }
        i += 1;
    }
    assert(replace_char(v@, a, b).take(v.len() as int) =~= replace_char(v@, a, b));
    r
}

/// `s` with every non-overlapping occurrence of `p`, scanning from `pos`,
/// replaced by `r` (the part of `s` before `pos` is dropped).
pub open spec fn replace_from(s: Seq<char>, p: Seq<char>, r: Seq<char>, pos: int) -> Seq<char>
    decreases s.len() - pos,
{
    if pos < 0 || pos > s.len() {
        Seq::empty()
    } else if p.len() == 0 {
        s.subrange(pos, s.len() as int)
    } else {
        match find_from(s, p, pos) {
            None => s.subrange(pos, s.len() as int),
            Some(k) => {
                proof {
                    lemma_find_from(s, p, pos);
                }
                s.subrange(pos, k) + r + replace_from(s, p, r, k + p.len())
            },
        }
    }
}

/// `s` with every non-overlapping occurrence of `p` replaced by `r`.
pub open spec fn replace_all(s: Seq<char>, p: Seq<char>, r: Seq<char>) -> Seq<char> {
    replace_from(s, p, r, 0)
}

/// Replaces every non-overlapping occurrence of `p` in `v` by `r`.
pub fn replace_all_exec(v: &Vec<char>, p: &Vec<char>, r: &Vec<char>) -> (out: Vec<char>)
    ensures
        out@ == replace_all(v@, p@, r@),
{
    let mut out: Vec<char> = Vec::new();
    if p.len() == 0 {
        let mut i: usize = 0;
        while i < v.len()
            invariant
                i <= v.len(),
                out@ =~= v@.take(i as int),
            decreases v.len() - i,
        {
            out.push(v[i]);
            i += 1;
        }
        assert(v@.take(v.len() as int) =~= v@.subrange(0, v.len() as int));
        return out;
    }
    let mut pos: usize = 0;
    loop
        invariant
            pos <= v.len(),
            p.len() > 0,
            out@ + replace_from(v@, p@, r@, pos as int) == replace_all(v@, p@, r@),
        decreases v.len() - pos,
    {
        match find_seq(v, pos, p) {
            None => {
                let mut i = pos;
                let ghost out0 = out@;
                while i < v.len()
                    invariant
                        pos <= i <= v.len(),
                        out@ =~= out0 + v@.subrange(pos as int, i as int),
                    decreases v.len() - i,
                {
                    out.push(v[i]);
                    i += 1;
                }
                return out;
            },
            Some(k) => {
                proof {
                    lemma_find_from(v@, p@, pos as int);
                }
                let ghost out0 = out@;
                let mut i = pos;
                while i < k
                    invariant
                        pos <= i <= k,
                        k <= v.len(),
                        out@ =~= out0 + v@.subrange(pos as int, i as int),
                    decreases k - i,
                {
                    out.push(v[i]);
                    i += 1;
                }
                let mut j: usize = 0;
                let ghost out1 = out@;
                while j < r.len()
                    invariant
                        j <= r.len(),
                        out@ =~= out1 + r@.take(j as int),
                    decreases r.len() - j,
                {
                    out.push(r[j]);
                    j += 1;
                }
                assert(r@.take(r.len() as int) =~= r@);
                assert(out@ =~= out0 + v@.subrange(pos as int, k as int) + r@);
                assert(out0 + replace_from(v@, p@, r@, pos as int) =~= out@ + replace_from(v@, p@, r@, k + p.len()));
                pos = k + p.len();
            },
        }
    }
}

} // verus!

verus! {

/// The decimal digit for `d < 10`.
pub open spec fn digit_char(d: nat) -> char {
    if d == 0 { '0' } else if d == 1 { '1' } else if d == 2 { '2' } else if d == 3 { '3' }
    else if d == 4 { '4' } else if d == 5 { '5' } else if d == 6 { '6' } else if d == 7 { '7' }
    else if d == 8 { '8' } else { '9' }
}

/// The decimal notation of `n`, without leading zeros.
pub open spec fn decimal(n: nat) -> Seq<char>
    decreases n,
{
    if n < 10 {
        seq![digit_char(n)]
    } else {
        decimal(n / 10).push(digit_char(n % 10))
    }
}

/// The decimal notation of `n` is made of digits, has no leading zero,
/// and reads back as `n`.
pub proof fn lemma_decimal_reads_back(n: nat)
    ensures
        decimal(n).len() >= 1,
        forall|q: int| 0 <= q < decimal(n).len() ==> '0' <= #[trigger] decimal(n)[q] <= '9',
        n > 0 ==> decimal(n)[0] != '0',
        digits_value(decimal(n)) == n,
    decreases n,
{
    if n < 10 {
        let d = decimal(n);
        assert(d.drop_last() =~= Seq::<char>::empty());
        assert(digits_value(d.drop_last()) == 0);
    } else {
        lemma_decimal_reads_back(n / 10);
        let h = decimal(n / 10);
        let d = decimal(n);
        assert(d == h.push(digit_char(n % 10)));
        assert(d.drop_last() =~= h);
        assert(d.last() == digit_char(n % 10));
        assert(d[0] == h[0]);
        assert forall|q: int| 0 <= q < d.len() implies '0' <= #[trigger] d[q] <= '9' by {
            if q < h.len() {
                assert(d[q] == h[q]);
            }
        }
        assert((n / 10) * 10 + n % 10 == n) by (nonlinear_arith);
        assert(digit_char(n % 10) as int - '0' as int == n % 10);
    }
}

fn digit_char_exec(d: u64) -> (c: char)
    requires
        d < 10,
    ensures
        c == digit_char(d as nat),
{
    if d == 0 { '0' } else if d == 1 { '1' } else if d == 2 { '2' } else if d == 3 { '3' }
    else if d == 4 { '4' } else if d == 5 { '5' } else if d == 6 { '6' } else if d == 7 { '7' }
    else if d == 8 { '8' } else { '9' }
}

/// Appends the decimal notation of `n` to `out`.
pub fn push_decimal(out: &mut String, n: u64)
    ensures
        final(out)@ == old(out)@ + decimal(n as nat),
    decreases n,
{
    if n < 10 {
        out.push(digit_char_exec(n));
        assert(out@ =~= old(out)@ + decimal(n as nat));
    } else {
        push_decimal(out, n / 10);
        out.push(digit_char_exec(n % 10));
        assert(out@ =~= old(out)@ + decimal(n as nat));
    }
}

/// The decimal notation of a signed number.
pub open spec fn signed_decimal(n: int) -> Seq<char> {
    if n < 0 {
        seq!['-'] + decimal((-n) as nat)
    } else {
        decimal(n as nat)
    }
}

/// Appends the decimal notation of a signed number to `out`.
pub fn push_signed_decimal(out: &mut String, n: i64)
    ensures
        final(out)@ == old(out)@ + signed_decimal(n as int),
{
    if n < 0 {
        out.push('-');
        let m: u64 = if n == i64::MIN { 9223372036854775808u64 } else { (-n) as u64 };
        push_decimal(out, m);
        assert(out@ =~= old(out)@ + signed_decimal(n as int));
    } else {
        push_decimal(out, n as u64);
    }
}

} // verus!

verus! {

/// Number of bytes `c` takes in UTF-8.
pub open spec fn utf8_width(c: char) -> nat {
    if (c as u32) < 0x80 {
        1
    } else if (c as u32) < 0x800 {
        2
    } else if (c as u32) < 0x10000 {
        3
    } else {
        4
    }
}

/// Number of bytes `s` takes in UTF-8.
pub open spec fn utf8_len(s: Seq<char>) -> nat
    decreases s.len(),
{
    if s.len() == 0 {
        0
    } else {
        utf8_len(s.drop_last()) + utf8_width(s.last())
    }
}

/// Number of bytes `c` takes in UTF-8.
pub fn utf8_width_exec(c: char) -> (w: usize)
    ensures
        w == utf8_width(c),
        1 <= w <= 4,
{
    let u = c as u32;
    if u < 0x80 {
        1
    } else if u < 0x800 {
        2
    } else if u < 0x10000 {
        3
    } else {
        4
    }
}

pub proof fn lemma_utf8_len_push(s: Seq<char>, c: char)
    ensures
        utf8_len(s.push(c)) == utf8_len(s) + utf8_width(c),
{
    assert(s.push(c).drop_last() =~= s);
}

pub proof fn lemma_utf8_len_take(s: Seq<char>, k: int)
    requires
        0 <= k < s.len(),
    ensures
        utf8_len(s.take(k + 1)) == utf8_len(s.take(k)) + utf8_width(s[k]),
{
    assert(s.take(k + 1) =~= s.take(k).push(s[k]));
    lemma_utf8_len_push(s.take(k), s[k]);
}

pub proof fn lemma_utf8_len_concat(a: Seq<char>, b: Seq<char>)
    ensures
        utf8_len(a + b) == utf8_len(a) + utf8_len(b),
    decreases b.len(),
{
    if b.len() == 0 {
        assert(a + b =~= a);
    } else {
        assert((a + b).drop_last() =~= a + b.drop_last());
        lemma_utf8_len_concat(a, b.drop_last());
    }
}

/// Joins `parts` with `sep` between consecutive parts.
pub open spec fn join(parts: Seq<Seq<char>>, sep: Seq<char>) -> Seq<char>
    decreases parts.len(),
{
    if parts.len() == 0 {
        Seq::empty()
    } else if parts.len() == 1 {
        parts[0]
    } else {
        join(parts.drop_last(), sep) + sep + parts.last()
    }
}

/// Joins `parts` with `sep` between consecutive parts.
pub fn join_strings(parts: &Vec<String>, sep: &str) -> (r: String)
    ensures
        r@ == join(crate::formatting::views(parts@), sep@),
{
    let ghost pv = crate::formatting::views(parts@);
    let mut r = String::new();
    let mut i: usize = 0;
    while i < parts.len()
        invariant
            i <= parts.len(),
            pv == crate::formatting::views(parts@),
            r@ == join(pv.take(i as int), sep@),
        decreases parts.len() - i,
    {
        if i > 0 {
            r.push_str(sep);
        }
        r.push_str(parts[i].as_str());
        assert(pv.take(i + 1).drop_last() =~= pv.take(i as int));
        if i == 0 {
            assert(pv.take(0) =~= Seq::<Seq<char>>::empty());
            assert(r@ =~= join(pv.take(1), sep@));
        }
        i += 1;
    }
    assert(pv.take(parts.len() as int) =~= pv);
    r
}

} // verus!

verus! {

/// Last position `k < j` with `s[k] == c`, if any.
pub open spec fn last_index_before(s: Seq<char>, c: char, j: int) -> Option<int>
    decreases j,
{
    if j <= 0 || j > s.len() {
        None
    } else if s[j - 1] == c {
        Some(j - 1)
    } else {
        last_index_before(s, c, j - 1)
    }
}

pub proof fn lemma_last_index_before(s: Seq<char>, c: char, j: int)
    requires
        0 <= j <= s.len(),
    ensures
        match last_index_before(s, c, j) {
            Some(k) => 0 <= k < j && s[k] == c && forall|m: int| k < m < j ==> s[m] != c,
            None => forall|m: int| 0 <= m < j ==> s[m] != c,
        },
    decreases j,
{
    if j > 0 && s[j - 1] != c {
        lemma_last_index_before(s, c, j - 1);
    }
}

/// Last position of `c` in `v`.
pub fn rfind_char(v: &Vec<char>, c: char) -> (r: Option<usize>)
    ensures
        r == (match last_index_before(v@, c, v@.len() as int) {
            Some(k) => Some(k as usize),
            None => None::<usize>,
        }),
{
    rfind_char_before(v, c, v.len())
}

/// Last position of `c` in `v` before `end`.
pub fn rfind_char_before(v: &Vec<char>, c: char, end: usize) -> (r: Option<usize>)
    requires
        end <= v.len(),
    ensures
        r == (match last_index_before(v@, c, end as int) {
            Some(k) => Some(k as usize),
            None => None::<usize>,
        }),
{
    proof {
        lemma_last_index_before(v@, c, end as int);
    }
    let mut j = end;
    while j > 0
        invariant
            j <= end <= v.len(),
            last_index_before(v@, c, j as int) == last_index_before(v@, c, end as int),
        decreases j,
    {
        if v[j - 1] == c {
            return Some(j - 1);
        }
        j -= 1;
    }
    None
}

} // verus!

verus! {

/// `a` sorts strictly before `b` in code-point lexicographic order, the
/// order of Rust's `str` comparison.
pub open spec fn lex_lt(a: Seq<char>, b: Seq<char>) -> bool
    decreases a.len(),
{
    if b.len() == 0 {
        false
    } else if a.len() == 0 {
        true
    } else if a[0] != b[0] {
        a[0] < b[0]
    } else {
        lex_lt(a.drop_first(), b.drop_first())
    }
}

pub proof fn lemma_lex_irreflexive(a: Seq<char>)
    ensures
        !lex_lt(a, a),
    decreases a.len(),
{
    if a.len() > 0 {
        lemma_lex_irreflexive(a.drop_first());
    }
}

pub proof fn lemma_lex_transitive(a: Seq<char>, b: Seq<char>, c: Seq<char>)
    requires
        lex_lt(a, b),
        lex_lt(b, c),
    ensures
        lex_lt(a, c),
    decreases a.len(),
{
    if a.len() > 0 && b.len() > 0 && c.len() > 0 && a[0] == b[0] && b[0] == c[0] {
        lemma_lex_transitive(a.drop_first(), b.drop_first(), c.drop_first());
    }
}

pub proof fn lemma_lex_total(a: Seq<char>, b: Seq<char>)
    ensures
        lex_lt(a, b) || lex_lt(b, a) || a == b,
    decreases a.len(),
{
    if a.len() > 0 && b.len() > 0 {
        if a[0] == b[0] {
            lemma_lex_total(a.drop_first(), b.drop_first());
            if a.drop_first() == b.drop_first() {
                assert(a =~= seq![a[0]] + a.drop_first());
                assert(b =~= seq![b[0]] + b.drop_first());
            }
        }
    } else if a.len() == 0 && b.len() == 0 {
        assert(a =~= b);
    }
}

pub proof fn lemma_lex_asymmetric(a: Seq<char>, b: Seq<char>)
    requires
        lex_lt(a, b),
    ensures
        !lex_lt(b, a),
{
    if lex_lt(b, a) {
        lemma_lex_transitive(a, b, a);
        lemma_lex_irreflexive(a);
    }
}

/// Whether `a` sorts strictly before `b`.
pub fn lex_less(a: &str, b: &str) -> (r: bool)
    ensures
        r == lex_lt(a@, b@),
{
    let va = chars_of(a);
    let vb = chars_of(b);
    let mut i: usize = 0;
    assert(va@.skip(0) =~= va@);
    assert(vb@.skip(0) =~= vb@);
    while i < va.len() && i < vb.len() && va[i] == vb[i]
        invariant
            i <= va.len(),
            i <= vb.len(),
            lex_lt(va@, vb@) == lex_lt(va@.skip(i as int), vb@.skip(i as int)),
        decreases va.len() - i,
    {
        assert(va@.skip(i as int).drop_first() =~= va@.skip(i + 1));
        assert(vb@.skip(i as int).drop_first() =~= vb@.skip(i + 1));
        i += 1;
    }
    if i == vb.len() {
        false
    } else if i == va.len() {
        true
    } else {
        va[i] < vb[i]
    }
}

} // verus!

verus! {

/// `s` is non-empty and made of ASCII digits.
pub open spec fn all_digits(s: Seq<char>) -> bool {
    s.len() > 0 && forall|i: int| 0 <= i < s.len() ==> '0' <= #[trigger] s[i] <= '9'
}

/// The value of a string of ASCII digits.
pub open spec fn digits_value(s: Seq<char>) -> int
    decreases s.len(),
{
    if s.len() == 0 {
        0
    } else {
        digits_value(s.drop_last()) * 10 + (s.last() as int - '0' as int)
    }
}

/// What `str::parse::<i64>` gives: an optional `+` or `-` sign followed by
/// ASCII digits whose value fits in `i64`.
pub open spec fn parsed_i64(s: Seq<char>) -> Option<i64> {
    let neg = s.len() > 0 && s[0] == '-';
    let body = if s.len() > 0 && (s[0] == '-' || s[0] == '+') { s.skip(1) } else { s };
    let v = if neg { -digits_value(body) } else { digits_value(body) };
    if all_digits(body) && i64::MIN <= v <= i64::MAX {
        Some(v as i64)
    } else {
        None
    }
}

proof fn lemma_digits_value_grows(s: Seq<char>, i: int)
    requires
        0 <= i <= s.len(),
        forall|j: int| 0 <= j < s.len() ==> '0' <= #[trigger] s[j] <= '9',
    ensures
        digits_value(s.take(i)) <= digits_value(s),
        0 <= digits_value(s.take(i)),
    decreases s.len() - i,
{
    if i < s.len() {
        lemma_digits_value_grows(s, i + 1);
        assert(s.take(i + 1).drop_last() =~= s.take(i));
    } else {
        assert(s.take(i) =~= s);
    }
    lemma_digits_value_nonneg(s.take(i));
}

proof fn lemma_digits_value_nonneg(s: Seq<char>)
    requires
        forall|j: int| 0 <= j < s.len() ==> '0' <= #[trigger] s[j] <= '9',
    ensures
        0 <= digits_value(s),
    decreases s.len(),
{
    if s.len() > 0 {
        lemma_digits_value_nonneg(s.drop_last());
    }
}

/// Parses a decimal `i64` as `str::parse` does.
pub fn parse_i64(v: &Vec<char>) -> (r: Option<i64>)
    ensures
        r == parsed_i64(v@),
{
    let ghost s = v@;
    let neg = v.len() > 0 && v[0] == '-';
    let start: usize = if v.len() > 0 && (v[0] == '-' || v[0] == '+') {
        1
    } else {
        0
    };
    let ghost body = s.skip(start as int);
    assert(body =~= (if s.len() > 0 && (s[0] == '-' || s[0] == '+') { s.skip(1) } else { s }));
    if start == v.len() {
        assert(body.len() == 0);
        return None;
    }
    let mut mag: u64 = 0;
    let mut i: usize = start;
    while i < v.len()
        invariant
            start <= i <= v.len(),
            start < v.len(),
            neg == (s.len() > 0 && s[0] == '-'),
            start == (if s.len() > 0 && (s[0] == '-' || s[0] == '+') { 1usize } else { 0usize }),
            body == s.skip(start as int),
            body == (if s.len() > 0 && (s[0] == '-' || s[0] == '+') { s.skip(1) } else { s }),
            s == v@,
            forall|j: int| 0 <= j < i - start ==> '0' <= #[trigger] body[j] <= '9',
            mag == digits_value(body.take(i - start)),
        decreases v.len() - i,
    {
        let c = v[i];
        if !('0' <= c && c <= '9') {
            assert(body[i - start] == c);
            assert(!all_digits(body));
            return None;
        }
        let d = (c as u32 - '0' as u32) as u64;
        assert(body.take(i - start + 1).drop_last() =~= body.take(i - start));
        match mag.checked_mul(10) {
            Some(m) => match m.checked_add(d) {
                Some(m2) => {
                    mag = m2;
                },
                None => {
                    proof {
                        assert(forall|j: int| 0 <= j < i - start + 1 ==> '0' <= #[trigger] body[j] <= '9');
                        lemma_rest_digits_or_none(body, i - start + 1);
                    }
                    return None;
                },
            },
            None => {
                proof {
                    assert(forall|j: int| 0 <= j < i - start + 1 ==> '0' <= #[trigger] body[j] <= '9');
                    lemma_rest_digits_or_none(body, i - start + 1);
                }
                return None;
            },
        }
        i += 1;
    }
    assert(body.take(body.len() as int) =~= body);
    assert(all_digits(body));
    if neg {
        if mag <= 9223372036854775807 {
            Some(-(mag as i64))
        } else if mag == 9223372036854775808 {
            Some(-9223372036854775807i64 - 1)
        } else {
            None
        }
    } else {
        if mag <= 9223372036854775807 {
            Some(mag as i64)
        } else {
            None
        }
    }
}

/// A digit prefix whose value exceeds `u64` means no `i64` results.
proof fn lemma_rest_digits_or_none(body: Seq<char>, k: int)
    requires
        0 < k <= body.len(),
        forall|j: int| 0 <= j < k ==> '0' <= #[trigger] body[j] <= '9',
        digits_value(body.take(k)) > u64::MAX,
    ensures
        all_digits(body) ==> digits_value(body) > u64::MAX,
{
    if all_digits(body) {
        lemma_digits_value_grows(body, k);
    }
}

} // verus!
