use vstd::prelude::*;

verus! {

// Operation patterns are UTF-8 byte strings such as `{}+{}` or `[{+}]`:
// `{}` marks an operand slot and `{+}` a slot that takes the rest of the
// operands as an array.

/// `s` starts with an operand slot `{}`.
pub open spec fn leading_slot(s: Seq<u8>) -> bool {
    s.len() >= 2 && s[0] == 123u8 && s[1] == 125u8
}

/// `s` ends with an operand slot `{}`.
pub open spec fn trailing_slot(s: Seq<u8>) -> bool {
    s.len() >= 2 && s[s.len() - 2] == 123u8 && s[s.len() - 1] == 125u8
}

/// A spread slot `{+}` starts at byte `i` of `s`.
pub open spec fn spread_at(s: Seq<u8>, i: int) -> bool {
    0 <= i && i + 3 <= s.len() && s[i] == 123u8 && s[i + 1] == 43u8 && s[i + 2] == 125u8
}

/// `s` holds a spread slot `{+}`.
pub open spec fn has_spread(s: Seq<u8>) -> bool {
    exists|i: int| spread_at(s, i)
}

/// The number of spread slots that start before byte `n` of `s`.
pub open spec fn spread_count(s: Seq<u8>, n: int) -> nat
    decreases n,
{
    if n <= 0 {
        0
    } else {
        spread_count(s, n - 1) + if spread_at(s, n - 1) {
            1nat
        } else {
            0nat
        }
    }
}

/// The length of `s` once each spread slot `{+}` is written as a plain slot
/// `{}`. Two spread slots never overlap, so each of them is rewritten and
/// each rewrite takes one byte away.
pub open spec fn collapsed_len(s: Seq<u8>) -> int {
    s.len() - spread_count(s, s.len() as int)
}

/// Byte `i` of the UTF-8 string `s` starts a character, or is its end: what
/// `str::is_char_boundary` answers, byte for byte.
pub open spec fn boundary(s: Seq<u8>, i: int) -> bool {
    i == 0 || i == s.len() || (0 < i < s.len() && !(0x80u8 <= s[i] && s[i] < 0xC0u8))
}

/// The pattern of `outer` whose trailing slot is filled by `inner`.
pub open spec fn combination(outer: Seq<u8>, inner: Seq<u8>) -> Seq<u8> {
    outer.take(outer.len() - 2) + inner
}

/// The patterns under which the combination of `outer` and `inner` is looked
/// up. Where both sides are infix (the outer starts with a slot, the inner ends
/// with one), each prefix of the combination that ends inside the inner
/// pattern, after its leading slot and before its last two bytes, is a
/// candidate, shortest first; otherwise the whole combination is the one
/// candidate.
pub open spec fn candidates(outer: Seq<u8>, inner: Seq<u8>) -> Seq<Seq<u8>> {
    let c = combination(outer, inner);
    if leading_slot(outer) && trailing_slot(inner) {
        Seq::new((inner.len() - 4) as nat, |i: int| c.take(outer.len() + i))
    } else {
        seq![c]
    }
}

/// The candidates can be formed: where both sides are infix the inner pattern
/// has four bytes at least, and every cut falls between characters.
pub open spec fn candidates_defined(outer: Seq<u8>, inner: Seq<u8>) -> bool {
    leading_slot(outer) && trailing_slot(inner) ==> {
        &&& inner.len() >= 4
        &&& forall|i: int|
            0 <= i < inner.len() - 4 ==> #[trigger] boundary(
                combination(outer, inner),
                outer.len() + i,
            )
    }
}

/// What is left of `combined` once the operation declared as `found` has
/// matched its front: a slot for that operation's value, then the rest.
pub open spec fn remainder(combined: Seq<u8>, found: Seq<u8>) -> Seq<u8> {
    seq![123u8, 125u8] + combined.skip(collapsed_len(found))
}

/// Whether `s` starts with an operand slot.
pub fn starts_with_slot(s: &Vec<u8>) -> (b: bool)
    ensures
        b == leading_slot(s@),
{
    s.len() >= 2 && s[0] == 123u8 && s[1] == 125u8
}

/// Whether `s` ends with an operand slot.
pub fn ends_with_slot(s: &Vec<u8>) -> (b: bool)
    ensures
        b == trailing_slot(s@),
{
    let n = s.len();
    n >= 2 && s[n - 2] == 123u8 && s[n - 1] == 125u8
}

/// Whether a spread slot starts at byte `i` of `s`.
fn spread_starts_at(s: &Vec<u8>, i: usize) -> (b: bool)
    ensures
        b == spread_at(s@, i as int),
{
    i < s.len() && s.len() - i >= 3 && s[i] == 123u8 && s[i + 1] == 43u8 && s[i + 2] == 125u8
}

/// Whether `s` holds a spread slot.
pub fn contains_spread(s: &Vec<u8>) -> (b: bool)
    ensures
        b == has_spread(s@),
{
    let mut i: usize = 0;
    while i < s.len()
        invariant
            i <= s.len(),
            forall|j: int| 0 <= j < i ==> !spread_at(s@, j),
        decreases s.len() - i,
    {
        if spread_starts_at(s, i) {
            return true;
        }
        i = i + 1;
    }
    assert forall|j: int| !spread_at(s@, j) by {
        if 0 <= j < s.len() {
        }
    }
    false
}

/// The length of `s` once each spread slot is written as a plain slot.
pub fn collapsed_length(s: &Vec<u8>) -> (n: usize)
    ensures
        n == collapsed_len(s@),
{
    let mut i: usize = 0;
    let mut count: usize = 0;
    while i < s.len()
        invariant
            i <= s.len(),
            count == spread_count(s@, i as int),
            count <= i,
        decreases s.len() - i,
    {
        if spread_starts_at(s, i) {
            count = count + 1;
        }
        i = i + 1;
    }
    proof {
        lemma_spread_count_bound(s@, s@.len() as int);
    }
    s.len() - count
}

/// At most one spread slot starts at each byte, so fewer than `n` start
/// before byte `n`.
proof fn lemma_spread_count_bound(s: Seq<u8>, n: int)
    ensures
        spread_count(s, n) <= if n < 0 {
            0
        } else {
            n
        },
    decreases n,
{
    if n > 0 {
        lemma_spread_count_bound(s, n - 1);
    }
}

/// Whether byte `i` of `s` starts a character or is its end.
pub fn is_char_boundary(s: &Vec<u8>, i: usize) -> (b: bool)
    ensures
        b == boundary(s@, i as int),
{
    i == 0 || i == s.len() || (i < s.len() && !(0x80u8 <= s[i] && s[i] < 0xC0u8))
}

/// The first `n` bytes of `s`.
pub fn prefix(s: &Vec<u8>, n: usize) -> (r: Vec<u8>)
    requires
        n <= s.len(),
    ensures
        r@ == s@.take(n as int),
{
    let mut r: Vec<u8> = Vec::new();
    let mut i: usize = 0;
    while i < n
        invariant
            i <= n,
            n <= s.len(),
            r@ == s@.take(i as int),
        decreases n - i,
    {
        r.push(s[i]);
        i = i + 1;
        assert(r@ =~= s@.take(i as int));
    }
    r
}

/// The pattern of `outer` with its trailing slot filled by `inner`.
pub fn combine(outer: &Vec<u8>, inner: &Vec<u8>) -> (c: Vec<u8>)
    requires
        trailing_slot(outer@),
    ensures
        c@ == combination(outer@, inner@),
{
    let mut c = prefix(outer, outer.len() - 2);
    let mut i: usize = 0;
    while i < inner.len()
        invariant
            i <= inner.len(),
            trailing_slot(outer@),
            c@ == outer@.take(outer.len() - 2) + inner@.take(i as int),
        decreases inner.len() - i,
    {
        c.push(inner[i]);
        i = i + 1;
        assert(c@ =~= outer@.take(outer.len() - 2) + inner@.take(i as int));
    }
    assert(inner@.take(inner.len() as int) =~= inner@);
    c
}

/// The patterns under which the combination of `outer` and `inner` is looked up.
pub fn combination_candidates(outer: &Vec<u8>, inner: &Vec<u8>) -> (r: Vec<Vec<u8>>)
    requires
        trailing_slot(outer@),
        leading_slot(inner@),
        candidates_defined(outer@, inner@),
    ensures
        r.len() == candidates(outer@, inner@).len(),
        forall|i: int| 0 <= i < r.len() ==> #[trigger] r[i]@ == candidates(outer@, inner@)[i],
{
    let combined = combine(outer, inner);
    let mut r: Vec<Vec<u8>> = Vec::new();
    if starts_with_slot(outer) && ends_with_slot(inner) {
        let n = inner.len() - 4;
        let clen = combined.len();
        let mut i: usize = 0;
        while i < n
            invariant
                i <= n,
                n == inner.len() - 4,
                clen == combined@.len(),
                combined@ == combination(outer@, inner@),
                leading_slot(outer@) && trailing_slot(inner@),
                r.len() == i,
                forall|k: int| 0 <= k < i ==> #[trigger] r[k]@ == candidates(outer@, inner@)[k],
            decreases n - i,
        {
            r.push(prefix(&combined, outer.len() + i));
            i = i + 1;
        }
    } else {
        r.push(combined);
    }
    r
}

/// What is left of `combined` once the operation declared with pattern
/// `found` has matched its front.
pub fn remainder_of(combined: &Vec<u8>, found: &Vec<u8>) -> (r: Vec<u8>)
    requires
        collapsed_len(found@) <= combined.len(),
    ensures
        r@ == remainder(combined@, found@),
{
    let start = collapsed_length(found);
    let mut r: Vec<u8> = Vec::new();
    r.push(123u8);
    r.push(125u8);
    let mut i: usize = start;
    while i < combined.len()
        invariant
            start <= i <= combined.len(),
            start == collapsed_len(found@),
            r@ == seq![123u8, 125u8] + combined@.subrange(start as int, i as int),
        decreases combined.len() - i,
    {
        r.push(combined[i]);
        i = i + 1;
        assert(r@ =~= seq![123u8, 125u8] + combined@.subrange(start as int, i as int));
    }
    assert(combined@.subrange(start as int, combined.len() as int) =~= combined@.skip(start as int));
    r
}

/// Whether the candidates for the combination of `outer` and `inner` can be
/// formed; see `candidates_defined`.
pub fn candidates_can_be_formed(outer: &Vec<u8>, inner: &Vec<u8>) -> (b: bool)
    requires
        trailing_slot(outer@),
    ensures
        b == candidates_defined(outer@, inner@),
{
    if !(starts_with_slot(outer) && ends_with_slot(inner)) {
        return true;
    }
    if inner.len() < 4 {
        return false;
    }
    let combined = combine(outer, inner);
    let clen = combined.len();
    let n = inner.len() - 4;
    let mut i: usize = 0;
    while i < n
        invariant
            i <= n,
            n == inner.len() - 4,
            clen == combined@.len(),
            combined@ == combination(outer@, inner@),
            leading_slot(outer@) && trailing_slot(inner@),
            forall|k: int|
                0 <= k < i ==> #[trigger] boundary(combination(outer@, inner@), outer@.len() + k),
        decreases n - i,
    {
        if !is_char_boundary(&combined, outer.len() + i) {
            assert(!boundary(combination(outer@, inner@), outer@.len() + i));
            return false;
        }
        i = i + 1;
    }
    true
}

} // verus!
