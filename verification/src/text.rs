//! Character-level helpers shared by the terminal buffers: weighted suffixes
//! of a character sequence (by UTF-8 bytes or by line breaks) and the few
//! `String` operations that vstd leaves unspecified.
use vstd::prelude::*;
use vstd::utf8::*;

verus! {

/// Sum of `w` over the characters of `s`.
pub open spec fn weight_sum(s: Seq<char>, w: spec_fn(char) -> nat) -> nat
    decreases s.len(),
{
    if s.len() == 0 {
        0
    } else {
        w(s[0]) + weight_sum(s.drop_first(), w)
    }
}

/// The longest suffix of `s` whose weight is at most `bound`: characters are
/// dropped from the front until the rest weighs no more than `bound`.
pub open spec fn tail_within(s: Seq<char>, w: spec_fn(char) -> nat, bound: nat) -> Seq<char>
    decreases s.len(),
{
    if s.len() == 0 || weight_sum(s, w) <= bound {
        s
    } else {
        tail_within(s.drop_first(), w, bound)
    }
}

/// Number of bytes of a character in UTF-8.
pub open spec fn utf8_width() -> spec_fn(char) -> nat {
    |c: char|
        if (c as u32) < 0x80 {
            1nat
        } else if (c as u32) < 0x800 {
            2nat
        } else if (c as u32) < 0x10000 {
            3nat
        } else {
            4nat
        }
}

/// One for a line feed, zero for any other character.
pub open spec fn newline_weight() -> spec_fn(char) -> nat {
    |c: char|
        if c == '\n' {
            1nat
        } else {
            0nat
        }
}

/// Length in bytes of the UTF-8 encoding of `s` (what `str::len` reports).
pub open spec fn utf8_len(s: Seq<char>) -> nat {
    encode_utf8(s).len()
}

/// Number of line feeds in `s`.
pub open spec fn newline_count(s: Seq<char>) -> nat {
    weight_sum(s, newline_weight())
}

/// The characters that the last `n` bytes of the UTF-8 encoding of `s` hold,
/// as far as a character boundary allows: the longest suffix of at most `n` bytes.
pub open spec fn last_bytes(s: Seq<char>, n: nat) -> Seq<char> {
    tail_within(s, utf8_width(), n)
}

/// The byte offset `utf8_len(s) - n` falls on a character boundary, or `s` is
/// no longer than `n` bytes: cutting the encoding there leaves whole characters.
pub open spec fn cut_on_boundary(s: Seq<char>, n: nat) -> bool {
    utf8_len(s) <= n || utf8_len(last_bytes(s, n)) == n
}

/// Weight of a suffix, one character at a time.
pub proof fn lemma_weight_skip(s: Seq<char>, w: spec_fn(char) -> nat, i: int)
    requires
        0 <= i < s.len(),
    ensures
        weight_sum(s.skip(i), w) == w(s[i]) + weight_sum(s.skip(i + 1), w),
{
    assert(s.skip(i).drop_first() =~= s.skip(i + 1));
}

/// A later suffix weighs no more than an earlier one.
pub proof fn lemma_weight_skip_mono(s: Seq<char>, w: spec_fn(char) -> nat, i: int, j: int)
    requires
        0 <= i <= j <= s.len(),
    ensures
        weight_sum(s.skip(j), w) <= weight_sum(s.skip(i), w),
    decreases j - i,
{
    if i < j {
        lemma_weight_skip(s, w, i);
        lemma_weight_skip_mono(s, w, i + 1, j);
    }
}

/// The suffix starting at `j` is `tail_within` of the suffix starting at any `i <= j`,
/// when `j` is the first position whose suffix weighs at most `bound`.
proof fn lemma_tail_from(s: Seq<char>, w: spec_fn(char) -> nat, bound: nat, i: int, j: int)
    requires
        0 <= i <= j <= s.len(),
        weight_sum(s.skip(j), w) <= bound,
        j == 0 || weight_sum(s.skip(j - 1), w) > bound,
    ensures
        tail_within(s.skip(i), w, bound) == s.skip(j),
    decreases j - i,
{
    if i < j {
        lemma_weight_skip_mono(s, w, i, j - 1);
        assert(s.skip(i).drop_first() =~= s.skip(i + 1));
        lemma_tail_from(s, w, bound, i + 1, j);
    }
}

/// Characterizes `tail_within` by the position where it starts.
pub proof fn lemma_tail_is_skip(s: Seq<char>, w: spec_fn(char) -> nat, bound: nat, j: int)
    requires
        0 <= j <= s.len(),
        weight_sum(s.skip(j), w) <= bound,
        j == 0 || weight_sum(s.skip(j - 1), w) > bound,
    ensures
        tail_within(s, w, bound) == s.skip(j),
{
    assert(s.skip(0) =~= s);
    lemma_tail_from(s, w, bound, 0, j);
}

/// `tail_within` keeps a suffix of `s` that weighs at most `bound`.
pub proof fn lemma_tail_within_props(s: Seq<char>, w: spec_fn(char) -> nat, bound: nat)
    ensures
        weight_sum(tail_within(s, w, bound), w) <= bound,
        exists|k: int|
            0 <= k <= s.len() && #[trigger] s.skip(k) == tail_within(s, w, bound),
    decreases s.len(),
{
    if s.len() == 0 || weight_sum(s, w) <= bound {
        assert(s.skip(0) =~= s);
    } else {
        lemma_tail_within_props(s.drop_first(), w, bound);
        let k = choose|k: int|
            0 <= k <= s.drop_first().len() && #[trigger] s.drop_first().skip(k) == tail_within(
                s.drop_first(),
                w,
                bound,
            );
        assert(s.drop_first().skip(k) =~= s.skip(k + 1));
    }
}

/// A sequence that already weighs at most `bound` is its own tail, and taking
/// the tail twice is taking it once.
pub proof fn lemma_tail_within_idempotent(s: Seq<char>, w: spec_fn(char) -> nat, bound: nat)
    ensures
        tail_within(tail_within(s, w, bound), w, bound) == tail_within(s, w, bound),
{
    lemma_tail_within_props(s, w, bound);
    let t = tail_within(s, w, bound);
    if t.len() > 0 {
        assert(weight_sum(t, w) <= bound);
    }
}

/// The byte length of a sequence is the sum of the widths of its characters.
pub proof fn lemma_utf8_len_is_width_sum(s: Seq<char>)
    ensures
        utf8_len(s) == weight_sum(s, utf8_width()),
    decreases s.len(),
{
    if s.len() > 0 {
        lemma_utf8_len_is_width_sum(s.drop_first());
        char_is_scalar(s[0]);
        assert(encode_utf8(s) == encode_scalar(s[0] as u32) + encode_utf8(s.drop_first()));
    }
}

/// When every character weighs at most one and `s` weighs at least `bound`,
/// the tail weighs exactly `bound`.
pub proof fn lemma_tail_within_exact(s: Seq<char>, w: spec_fn(char) -> nat, bound: nat)
    requires
        forall|c: char| #[trigger] w(c) <= 1,
        weight_sum(s, w) >= bound,
    ensures
        weight_sum(tail_within(s, w, bound), w) == bound,
    decreases s.len(),
{
    if s.len() == 0 || weight_sum(s, w) <= bound {
    } else {
        assert(w(s[0]) <= 1);
        lemma_tail_within_exact(s.drop_first(), w, bound);
    }
}

/// The UTF-8 encoding of a concatenation is the concatenation of the encodings.
pub proof fn lemma_encode_utf8_append(a: Seq<char>, b: Seq<char>)
    ensures
        encode_utf8(a + b) == encode_utf8(a) + encode_utf8(b),
    decreases a.len(),
{
    if a.len() == 0 {
        assert(a + b =~= b);
        assert(encode_utf8(a) + encode_utf8(b) =~= encode_utf8(b));
    } else {
        assert((a + b).drop_first() =~= a.drop_first() + b);
        assert((a + b)[0] == a[0]);
        lemma_encode_utf8_append(a.drop_first(), b);
        assert(encode_utf8(a + b) =~= encode_utf8(a) + encode_utf8(b));
    }
}

/// When the cut falls on a character boundary, `last_bytes(s, n)` encodes to
/// exactly the last `n` bytes of the encoding of `s`.
pub proof fn lemma_last_bytes_encoding(s: Seq<char>, n: nat)
    requires
        cut_on_boundary(s, n),
        utf8_len(s) > n,
    ensures
        encode_utf8(last_bytes(s, n)) == encode_utf8(s).subrange(
            utf8_len(s) - n,
            utf8_len(s) as int,
        ),
{
    lemma_tail_within_props(s, utf8_width(), n);
    let k = choose|k: int|
        0 <= k <= s.len() && #[trigger] s.skip(k) == tail_within(s, utf8_width(), n);
    assert(s =~= s.take(k) + s.skip(k));
    lemma_encode_utf8_append(s.take(k), s.skip(k));
    let e = encode_utf8(s);
    assert(e.subrange(utf8_len(s) - n, utf8_len(s) as int) =~= encode_utf8(s.skip(k)));
}

/// Width in bytes of `c` in UTF-8.
pub fn char_width(c: char) -> (n: usize)
    ensures
        n == utf8_width()(c),
        1 <= n <= 4,
{
    let v = c as u32;
    if v < 0x80 {
        1
    } else if v < 0x800 {
        2
    } else if v < 0x10000 {
        3
    } else {
        4
    }
}

/// The characters of `s`, in order.
pub fn to_chars(s: &str) -> (v: Vec<char>)
    ensures
        v@ == s@,
{
    let mut v: Vec<char> = Vec::new();
    for c in it: s.chars()
        invariant
            v@ == it.seq().take(it.index() as int),
            it.seq() == s@,
    {
        v.push(c);
    }
    v
}

/// A string of the characters of `v` from position `start` on.
pub fn string_from(v: &Vec<char>, start: usize) -> (s: String)
    requires
        start <= v@.len(),
    ensures
        s@ == v@.skip(start as int),
{
    let mut s = String::new();
    let mut i = start;
    while i < v.len()
        invariant
            start <= i <= v@.len(),
            s@ == v@.subrange(start as int, i as int),
        decreases v@.len() - i,
    {
        push_char(&mut s, v[i]);
        assert(v@.subrange(start as int, i + 1) =~= v@.subrange(start as int, i as int).push(v@[i as int]));
        i = i + 1;
    }
    assert(v@.subrange(start as int, v@.len() as int) =~= v@.skip(start as int));
    s
}

/// Whether a `String` and a `str` hold the same characters.
pub fn same_text(a: &String, b: &str) -> (r: bool)
    ensures
        r == (a@ == b@),
{
    let owned = b.to_owned();
    *a == owned
}

/// A string of the single character `c`.
pub fn char_string(c: char) -> (s: String)
    ensures
        s@ == seq![c],
{
    let mut s = String::new();
    push_char(&mut s, c);
    s
}

/// `String::push`: appends the character `c` at the end of `s`.
#[verifier::external_body]
pub(crate) fn push_char(s: &mut String, c: char)
    ensures
        final(s)@ == old(s)@.push(c),
{
    s.push(c)
}

/// What `String::from_utf8_lossy` makes of a byte sequence: valid UTF-8 decoded,
/// each invalid sequence replaced by U+FFFD.
pub uninterp spec fn utf8_lossy(bytes: Seq<u8>) -> Seq<char>;

/// `String::from_utf8_lossy`, taken as an owned `String`. The contract claims
/// that the result is a function of the bytes (`utf8_lossy`) and that valid
/// UTF-8 comes back decoded as it is; how invalid sequences are replaced is
/// not stated.
#[verifier::external_body]
pub(crate) fn decode_lossy(bytes: &[u8]) -> (s: String)
    ensures
        s@ == utf8_lossy(bytes@),
        valid_utf8(bytes@) ==> s@ == decode_utf8(bytes@),
{
    String::from_utf8_lossy(bytes).into_owned()
}

} // verus!
