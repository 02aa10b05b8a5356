//! Character-level text operations used by the parsers and the payload builder.
//!
//! Text is modelled by its sequence of `char`s, which is the view Verus gives to
//! `str` and `String`.
use vstd::prelude::*;

verus! {

/// Unicode `White_Space` code points: the characters that `char::is_whitespace`
/// accepts and that `str::trim` removes.
pub open spec fn is_white_space(c: char) -> bool {
    let n = c as u32;
    ||| 0x09 <= n <= 0x0D
    ||| n == 0x20
    ||| n == 0x85
    ||| n == 0xA0
    ||| n == 0x1680
    ||| 0x2000 <= n <= 0x200A
    ||| n == 0x2028
    ||| n == 0x2029
    ||| n == 0x202F
    ||| n == 0x205F
    ||| n == 0x3000
}

/// `s` without its leading white space.
pub open spec fn trim_start(s: Seq<char>) -> Seq<char>
    decreases s.len(),
{
    if s.len() > 0 && is_white_space(s[0]) {
        trim_start(s.drop_first())
    } else {
        s
    }
}

/// `s` without its trailing white space.
pub open spec fn trim_end(s: Seq<char>) -> Seq<char>
    decreases s.len(),
{
    if s.len() > 0 && is_white_space(s.last()) {
        trim_end(s.drop_last())
    } else {
        s
    }
}

/// `s` without leading and trailing white space, as `str::trim` gives it.
pub open spec fn trim(s: Seq<char>) -> Seq<char> {
    trim_end(trim_start(s))
}

/// The index of the first occurrence of `c` in `s`, or `s.len()` when there is none.
pub open spec fn first_index_of(s: Seq<char>, c: char) -> int
    decreases s.len(),
{
    if s.len() == 0 {
        0
    } else if s[0] == c {
        0
    } else {
        1 + first_index_of(s.drop_first(), c)
    }
}

/// The number of occurrences of `c` in `s`.
pub open spec fn count_of(s: Seq<char>, c: char) -> nat
    decreases s.len(),
{
    if s.len() == 0 {
        0
    } else {
        count_of(s.drop_last(), c) + if s.last() == c { 1nat } else { 0nat }
    }
}

/// True when `c` is a white-space character (see [`is_white_space`]).
pub fn is_white_space_char(c: char) -> (r: bool)
    ensures
        r == is_white_space(c),
{
    let n = c as u32;
    (0x09 <= n && n <= 0x0D) || n == 0x20 || n == 0x85 || n == 0xA0 || n == 0x1680 || (0x2000
        <= n && n <= 0x200A) || n == 0x2028 || n == 0x2029 || n == 0x202F || n == 0x205F || n
        == 0x3000
}

/// The characters of `s`, in order.
pub fn char_vec(s: &str) -> (r: Vec<char>)
    ensures
        r@ == s@,
{
    let mut r: Vec<char> = Vec::new();
    for c in it: s.chars()
        invariant
            r@ == it.seq().take(it.index() as int),
    {
        r.push(c);
    }
    r
}

/// True when `a` and `b` hold the same text.
pub fn same_text(a: &str, b: &str) -> (r: bool)
    ensures
        r == (a@ == b@),
{
    let x = char_vec(a);
    let y = char_vec(b);
    if x.len() != y.len() {
        return false;
    }
    let mut i: usize = 0;
    while i < x.len()
        invariant
            x@ == a@,
            y@ == b@,
            x.len() == y.len(),
            i <= x.len(),
            forall|j: int| 0 <= j < i ==> x@[j] == y@[j],
        decreases x.len() - i,
    {
        if x[i] != y[i] {
            return false;
        }
        i = i + 1;
    }
    assert(x@ =~= y@);
    true
}

/// Where `first_index_of` points.
pub proof fn lemma_first_index_of_bounds(s: Seq<char>, c: char)
    ensures
        0 <= first_index_of(s, c) <= s.len(),
        first_index_of(s, c) < s.len() ==> s[first_index_of(s, c)] == c,
        forall|j: int| 0 <= j < first_index_of(s, c) ==> s[j] != c,
    decreases s.len(),
{
    if s.len() > 0 && s[0] != c {
        lemma_first_index_of_bounds(s.drop_first(), c);
        assert forall|j: int| 0 <= j < first_index_of(s, c) implies s[j] != c by {
            if j > 0 {
                assert(s[j] == s.drop_first()[j - 1]);
            }
        }
    }
}

/// `first_index_of` is the least index of `c`, or the length when `c` is absent.
pub proof fn lemma_first_index_of_is_least(s: Seq<char>, c: char, i: int)
    requires
        0 <= i <= s.len(),
        i < s.len() ==> s[i] == c,
        forall|j: int| 0 <= j < i ==> s[j] != c,
    ensures
        first_index_of(s, c) == i,
{
    lemma_first_index_of_bounds(s, c);
    let k = first_index_of(s, c);
    if k < i {
        assert(s[k] == c);
    } else if i < k {
        assert(s[i] != c);
    }
}

/// The first index at or after `from` (and before `to`) where `cs` holds `c`, or `to`.
pub fn find_char(cs: &Vec<char>, c: char, from: usize, to: usize) -> (r: usize)
    requires
        from <= to <= cs.len(),
    ensures
        from <= r <= to,
        r == from + first_index_of(cs@.subrange(from as int, to as int), c),
{
    let mut i = from;
    while i < to && cs[i] != c
        invariant
            from <= i <= to <= cs.len(),
            forall|j: int| from <= j < i ==> cs@[j] != c,
        decreases to - i,
    {
        i = i + 1;
    }
    proof {
        let sub = cs@.subrange(from as int, to as int);
        lemma_first_index_of_is_least(sub, c, i - from);
    }
    i
}

proof fn lemma_trim_start_skip(s: Seq<char>, i: int)
    requires
        0 <= i <= s.len(),
        forall|j: int| 0 <= j < i ==> is_white_space(s[j]),
    ensures
        trim_start(s) == trim_start(s.skip(i)),
    decreases i,
{
    if i == 0 {
        assert(s.skip(0) =~= s);
    } else {
        assert(s.drop_first().skip(i - 1) =~= s.skip(i));
        lemma_trim_start_skip(s.drop_first(), i - 1);
    }
}

proof fn lemma_trim_end_take(s: Seq<char>, k: int)
    requires
        0 <= k <= s.len(),
        forall|j: int| k <= j < s.len() ==> is_white_space(s[j]),
    ensures
        trim_end(s) == trim_end(s.take(k)),
    decreases s.len() - k,
{
    if k == s.len() {
        assert(s.take(k) =~= s);
    } else {
        assert(s.drop_last().take(k) =~= s.take(k));
        lemma_trim_end_take(s.drop_last(), k);
    }
}

/// The bounds of the trimmed part of `cs[lo..hi]`.
pub fn trim_bounds(cs: &Vec<char>, lo: usize, hi: usize) -> (r: (usize, usize))
    requires
        lo <= hi <= cs.len(),
    ensures
        lo <= r.0 <= r.1 <= hi,
        cs@.subrange(r.0 as int, r.1 as int) == trim(cs@.subrange(lo as int, hi as int)),
{
    let ghost s = cs@.subrange(lo as int, hi as int);
    let mut a = lo;
    while a < hi && is_white_space_char(cs[a])
        invariant
            lo <= a <= hi <= cs.len(),
            forall|j: int| lo <= j < a ==> is_white_space(cs@[j]),
        decreases hi - a,
    {
        a = a + 1;
    }
    proof {
        lemma_trim_start_skip(s, a - lo);
        assert(s.skip(a - lo) =~= cs@.subrange(a as int, hi as int));
    }
    let mut b = hi;
    while b > a && is_white_space_char(cs[b - 1])
        invariant
            lo <= a <= b <= hi <= cs.len(),
            forall|j: int| b <= j < hi ==> is_white_space(cs@[j]),
        decreases b - a,
    {
        b = b - 1;
    }
    proof {
        let t = cs@.subrange(a as int, hi as int);
        assert(trim_start(t) == t);
        lemma_trim_end_take(t, b - a);
        assert(t.take(b - a) =~= cs@.subrange(a as int, b as int));
        let u = cs@.subrange(a as int, b as int);
        assert(trim_end(u) == u);
    }
    (a, b)
}

proof fn lemma_trim_start_shape(s: Seq<char>)
    ensures
        exists|k: int| 0 <= k <= s.len() && trim_start(s) == s.skip(k),
        trim_start(s).len() == 0 || !is_white_space(trim_start(s)[0]),
    decreases s.len(),
{
    if s.len() > 0 && is_white_space(s[0]) {
        lemma_trim_start_shape(s.drop_first());
        let k = choose|k: int| 0 <= k <= s.drop_first().len() && trim_start(s.drop_first()) == s.drop_first().skip(k);
        assert(s.drop_first().skip(k) =~= s.skip(k + 1));
    } else {
        assert(s.skip(0) =~= s);
    }
}

proof fn lemma_trim_end_shape(s: Seq<char>)
    ensures
        exists|k: int| 0 <= k <= s.len() && trim_end(s) == s.take(k),
        trim_end(s).len() == 0 || !is_white_space(trim_end(s).last()),
    decreases s.len(),
{
    if s.len() > 0 && is_white_space(s.last()) {
        lemma_trim_end_shape(s.drop_last());
        let k = choose|k: int| 0 <= k <= s.drop_last().len() && trim_end(s.drop_last()) == s.drop_last().take(k);
        assert(s.drop_last().take(k) =~= s.take(k));
    } else {
        assert(s.take(s.len() as int) =~= s);
    }
}

/// `trim(s)` is a stretch of `s` that neither starts nor ends with white space.
pub proof fn lemma_trim_shape(s: Seq<char>)
    ensures
        exists|a: int, b: int| 0 <= a <= b <= s.len() && trim(s) == s.subrange(a, b),
        trim(s).len() == 0 || (!is_white_space(trim(s)[0]) && !is_white_space(trim(s).last())),
{
    lemma_trim_start_shape(s);
    let a = choose|k: int| 0 <= k <= s.len() && trim_start(s) == s.skip(k);
    let t = trim_start(s);
    lemma_trim_end_shape(t);
    let k = choose|k: int| 0 <= k <= t.len() && trim_end(t) == t.take(k);
    assert(t.take(k) =~= s.subrange(a, a + k));
    if trim(s).len() > 0 {
        assert(trim(s)[0] == t[0]);
    }
}

/// A text that neither starts nor ends with white space is its own trim.
pub proof fn lemma_trim_fixed(s: Seq<char>)
    requires
        s.len() == 0 || (!is_white_space(s[0]) && !is_white_space(s.last())),
    ensures
        trim(s) == s,
{
}

/// Trimming twice is trimming once.
pub proof fn lemma_trim_idempotent(s: Seq<char>)
    ensures
        trim(trim(s)) == trim(s),
{
    lemma_trim_shape(s);
    lemma_trim_fixed(trim(s));
}

/// Trimming keeps no character that the text did not hold.
pub proof fn lemma_trim_contains(s: Seq<char>, c: char)
    ensures
        trim(s).contains(c) ==> s.contains(c),
{
    lemma_trim_shape(s);
    if trim(s).contains(c) {
        let (a, b) = choose|a: int, b: int| 0 <= a <= b <= s.len() && trim(s) == s.subrange(a, b);
        let i = choose|i: int| 0 <= i < trim(s).len() && trim(s)[i] == c;
        assert(s[a + i] == c);
    }
}

proof fn lemma_trim_start_keeps(s: Seq<char>, c: char)
    requires
        !is_white_space(c),
        s.contains(c),
    ensures
        trim_start(s).contains(c),
    decreases s.len(),
{
    if s.len() > 0 && is_white_space(s[0]) {
        let j = choose|j: int| 0 <= j < s.len() && s[j] == c;
        assert(s.drop_first()[j - 1] == c);
        lemma_trim_start_keeps(s.drop_first(), c);
    }
}

proof fn lemma_trim_end_keeps(s: Seq<char>, c: char)
    requires
        !is_white_space(c),
        s.contains(c),
    ensures
        trim_end(s).contains(c),
    decreases s.len(),
{
    if s.len() > 0 && is_white_space(s.last()) {
        let j = choose|j: int| 0 <= j < s.len() && s[j] == c;
        assert(s.drop_last()[j] == c);
        lemma_trim_end_keeps(s.drop_last(), c);
    }
}

/// Trimming keeps every character that is not white space.
pub proof fn lemma_trim_keeps(s: Seq<char>, c: char)
    requires
        !is_white_space(c),
        s.contains(c),
    ensures
        trim(s).contains(c),
{
    lemma_trim_start_keeps(s, c);
    lemma_trim_end_keeps(trim_start(s), c);
}

/// Counting over a concatenation adds the counts.
pub proof fn lemma_count_of_concat(a: Seq<char>, b: Seq<char>, c: char)
    ensures
        count_of(a + b, c) == count_of(a, c) + count_of(b, c),
    decreases b.len(),
{
    if b.len() == 0 {
        assert(a + b =~= a);
    } else {
        lemma_count_of_concat(a, b.drop_last(), c);
        assert((a + b).drop_last() =~= a + b.drop_last());
        assert((a + b).last() == b.last());
    }
}

/// A text holds `c` exactly when it counts at least one.
pub proof fn lemma_count_of_contains(s: Seq<char>, c: char)
    ensures
        s.contains(c) <==> count_of(s, c) > 0,
    decreases s.len(),
{
    if s.len() > 0 {
        lemma_count_of_contains(s.drop_last(), c);
        if s.contains(c) && s.last() != c {
            let j = choose|j: int| 0 <= j < s.len() && s[j] == c;
            assert(s.drop_last()[j] == c);
        }
        if s.drop_last().contains(c) {
            let j = choose|j: int| 0 <= j < s.drop_last().len() && s.drop_last()[j] == c;
            assert(s[j] == c);
        }
        if s.last() == c {
            assert(s[s.len() - 1] == c);
        }
    }
}

} // verus!
