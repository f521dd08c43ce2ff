//! Byte-level text primitives: decimal rendering of integers, fixed-point
//! rendering and parsing with six fractional digits, whitespace tokenization,
//! and substring search.
//!
//! Fractional values are handled as integer counts of millionths, so a value
//! rendered with six decimal places is exact.

use vstd::prelude::*;

verus! {

/// True for an ASCII decimal digit.
pub open spec fn is_digit(b: u8) -> bool {
    48 <= b <= 57
}

/// True for the ASCII whitespace bytes recognized by the tokenizer:
/// space, tab, line feed, vertical tab, form feed, carriage return.
pub open spec fn is_ws(b: u8) -> bool {
    b == 32 || b == 9 || b == 10 || b == 11 || b == 12 || b == 13
}

/// The ASCII digit for `n` (`n` below ten).
pub open spec fn digit_byte(n: nat) -> u8 {
    (48 + n) as u8
}

/// The decimal digits of `n`, most significant first, no leading zeros.
pub open spec fn dec_digits(n: nat) -> Seq<u8>
    decreases n,
{
    if n < 10 {
        seq![digit_byte(n)]
    } else {
        dec_digits(n / 10).push(digit_byte(n % 10))
    }
}

/// Every byte of `dec_digits(n)` is a digit, and there is at least one.
pub proof fn lemma_dec_digits_wf(n: nat)
    ensures
        dec_digits(n).len() >= 1,
        forall|i: int| 0 <= i < dec_digits(n).len() ==> is_digit(#[trigger] dec_digits(n)[i]),
    decreases n,
{
    if n >= 10 {
        lemma_dec_digits_wf(n / 10);
    }
}

/// Appends the decimal digits of `n` to `out`.
pub fn push_dec(out: &mut Vec<u8>, n: u64)
    ensures
        final(out)@ == old(out)@ + dec_digits(n as nat),
    decreases n,
{
    if n < 10 {
        out.push(48 + n as u8);
    } else {
        push_dec(out, n / 10);
        out.push(48 + (n % 10) as u8);
        proof {
            assert(out@ =~= old(out)@ + dec_digits(n as nat));
        }
    }
}

/// Ten to the power `n`.
pub open spec fn pow10(n: nat) -> nat
    decreases n,
{
    if n == 0 {
        1
    } else {
        10 * pow10((n - 1) as nat)
    }
}

/// The last `w` decimal digits of `n`, most significant first, zero padded
/// to width `w`.
pub open spec fn pad_digits(n: nat, w: nat) -> Seq<u8>
    decreases w,
{
    if w == 0 {
        Seq::empty()
    } else {
        pad_digits(n / 10, (w - 1) as nat).push(digit_byte(n % 10))
    }
}

/// `pad_digits` produces exactly `w` digit bytes.
pub proof fn lemma_pad_digits_wf(n: nat, w: nat)
    ensures
        pad_digits(n, w).len() == w,
        forall|i: int| 0 <= i < w ==> is_digit(#[trigger] pad_digits(n, w)[i]),
    decreases w,
{
    if w > 0 {
        lemma_pad_digits_wf(n / 10, (w - 1) as nat);
    }
}

/// Appends the last `w` decimal digits of `n`, zero padded to width `w`.
pub fn push_pad(out: &mut Vec<u8>, n: u64, w: usize)
    ensures
        final(out)@ == old(out)@ + pad_digits(n as nat, w as nat),
    decreases w,
{
    if w > 0 {
        push_pad(out, n / 10, w - 1);
        out.push(48 + (n % 10) as u8);
        proof {
            assert(out@ =~= old(out)@ + pad_digits(n as nat, w as nat));
        }
    } else {
        proof {
            assert(out@ =~= old(out)@ + pad_digits(n as nat, 0));
        }
    }
}

/// The fixed-point rendering of `n` millionths: the integer part in decimal,
/// a dot, then exactly six fractional digits.
pub open spec fn fixed6(n: nat) -> Seq<u8> {
    dec_digits(n / 1000000) + seq![46u8] + pad_digits(n % 1000000, 6)
}

/// Appends the fixed-point rendering of `n` millionths to `out`.
pub fn push_fixed6(out: &mut Vec<u8>, n: u64)
    ensures
        final(out)@ == old(out)@ + fixed6(n as nat),
{
    push_dec(out, n / 1000000);
    out.push(46);
    push_pad(out, n % 1000000, 6);
    proof {
        assert(out@ =~= old(out)@ + fixed6(n as nat));
    }
}

/// The numeric value of a digit byte, zero for bytes below `'0'`.
pub open spec fn digit_val(b: u8) -> nat {
    if 48 <= b {
        (b - 48) as nat
    } else {
        0
    }
}

/// The value of a sequence of digit bytes read in base ten.
pub open spec fn digits_val(s: Seq<u8>) -> nat
    decreases s.len(),
{
    if s.len() == 0 {
        0
    } else {
        digits_val(s.drop_last()) * 10 + digit_val(s.last())
    }
}

/// Reading back the decimal rendering of `n` gives `n`.
pub proof fn lemma_digits_val_dec(n: nat)
    ensures
        digits_val(dec_digits(n)) == n,
    decreases n,
{
    if n < 10 {
        assert(dec_digits(n) =~= seq![digit_byte(n)]);
        assert(dec_digits(n).drop_last() =~= Seq::<u8>::empty());
        assert(dec_digits(n).last() == digit_byte(n));
        assert(digit_val(digit_byte(n)) == n);
        assert(digits_val(dec_digits(n)) == digits_val(Seq::<u8>::empty()) * 10 + n);
    } else {
        lemma_digits_val_dec(n / 10);
        assert(dec_digits(n).drop_last() =~= dec_digits(n / 10));
        assert(dec_digits(n).last() == digit_byte(n % 10));
        assert(digit_val(digit_byte(n % 10)) == n % 10);
        assert(digits_val(dec_digits(n)) == (n / 10) * 10 + n % 10);
    }
}

/// Reading back a zero-padded rendering of `n` gives `n`, provided `n`
/// fits in `w` digits.
pub proof fn lemma_digits_val_pad(n: nat, w: nat)
    requires
        n < pow10(w),
    ensures
        digits_val(pad_digits(n, w)) == n,
    decreases w,
{
    if w == 0 {
        assert(pad_digits(n, 0) =~= Seq::<u8>::empty());
    } else {
        assert(n / 10 < pow10((w - 1) as nat)) by {
            assert(pow10(w) == 10 * pow10((w - 1) as nat));
        };
        lemma_digits_val_pad(n / 10, (w - 1) as nat);
        assert(pad_digits(n, w).drop_last() =~= pad_digits(n / 10, (w - 1) as nat));
    }
}

/// Length of the longest prefix of `s` made of digit bytes.
pub open spec fn digit_prefix_len(s: Seq<u8>) -> nat
    decreases s.len(),
{
    if s.len() == 0 || !is_digit(s[0]) {
        0
    } else {
        (1 + digit_prefix_len(s.skip(1))) as nat
    }
}

/// `digit_prefix_len` is the unique boundary: all bytes before it are digits
/// and the byte at it (if any) is not.
pub proof fn lemma_digit_prefix_len(s: Seq<u8>, i: nat)
    requires
        i <= s.len(),
        forall|j: int| 0 <= j < i ==> is_digit(#[trigger] s[j]),
        i == s.len() || !is_digit(s[i as int]),
    ensures
        digit_prefix_len(s) == i,
    decreases s.len(),
{
    if s.len() == 0 || !is_digit(s[0]) {
    } else {
        lemma_digit_prefix_len(s.skip(1), (i - 1) as nat);
    }
}

/// True for a byte that may appear in a fixed-point numeric token.
pub open spec fn is_fixed_byte(b: u8) -> bool {
    is_digit(b) || b == 46
}

/// Length of the longest prefix of `s` made of digits and dots.
pub open spec fn fixed_prefix_len(s: Seq<u8>) -> nat
    decreases s.len(),
{
    if s.len() == 0 || !is_fixed_byte(s[0]) {
        0
    } else {
        (1 + fixed_prefix_len(s.skip(1))) as nat
    }
}

/// `fixed_prefix_len` is the unique boundary for digit-or-dot bytes.
pub proof fn lemma_fixed_prefix_len(s: Seq<u8>, i: nat)
    requires
        i <= s.len(),
        forall|j: int| 0 <= j < i ==> is_fixed_byte(#[trigger] s[j]),
        i == s.len() || !is_fixed_byte(s[i as int]),
    ensures
        fixed_prefix_len(s) == i,
    decreases s.len(),
{
    if s.len() == 0 || !is_fixed_byte(s[0]) {
    } else {
        lemma_fixed_prefix_len(s.skip(1), (i - 1) as nat);
    }
}

/// Number of dot bytes in `s`.
pub open spec fn count_dots(s: Seq<u8>) -> nat
    decreases s.len(),
{
    if s.len() == 0 {
        0
    } else {
        count_dots(s.drop_last()) + if s.last() == 46 {
            1nat
        } else {
            0nat
        }
    }
}

/// A well-formed fixed-point numeric token: made of digits and at most one
/// dot, with at least one digit.
pub open spec fn is_fixed_token(p: Seq<u8>) -> bool {
    &&& p.len() >= 1
    &&& forall|j: int| 0 <= j < p.len() ==> is_fixed_byte(#[trigger] p[j])
    &&& count_dots(p) <= 1
    &&& count_dots(p) < p.len()
}

/// Value in millionths of a fixed-point token: the digits before the dot are
/// the integer part, the digits after it the fraction, of which only the
/// first six count.
pub open spec fn fixed_val(p: Seq<u8>) -> nat {
    let k = digit_prefix_len(p) as int;
    let int_val = digits_val(p.take(k));
    let frac = if k < p.len() {
        p.skip(k + 1)
    } else {
        Seq::<u8>::empty()
    };
    let m = if frac.len() < 6 {
        frac.len() as int
    } else {
        6
    };
    int_val * 1000000 + digits_val(frac.take(m)) * pow10((6 - m) as nat)
}

/// The fixed-point rendering of `n` millionths parses back to `n`.
pub proof fn lemma_fixed_val_fixed6(n: nat)
    ensures
        is_fixed_token(fixed6(n)),
        fixed_val(fixed6(n)) == n,
{
    let p = fixed6(n);
    let d = dec_digits(n / 1000000);
    let f = pad_digits(n % 1000000, 6);
    lemma_dec_digits_wf(n / 1000000);
    lemma_pad_digits_wf(n % 1000000, 6);
    assert(count_dots(f) == 0) by {
        lemma_count_dots_no_dots(f);
    };
    assert(count_dots(p) == 1) by {
        lemma_count_dots_split(p, d, f);
    };
    assert(forall|j: int| 0 <= j < d.len() ==> p[j] == d[j] && is_digit(#[trigger] p[j]));
    assert(p[d.len() as int] == 46);
    lemma_digit_prefix_len(p, d.len());
    let k = digit_prefix_len(p) as int;
    assert(k == d.len());
    assert(p.take(k) =~= d);
    lemma_digits_val_dec(n / 1000000);
    assert(digits_val(p.take(k)) == n / 1000000);
    let frac = p.skip(k + 1);
    assert(frac =~= f);
    assert(frac.len() == 6);
    assert(frac.take(6) =~= f);
    assert(n % 1000000 < pow10(6)) by {
        reveal_with_fuel(pow10, 7);
    };
    lemma_digits_val_pad(n % 1000000, 6);
    assert(digits_val(frac.take(6)) == n % 1000000);
    assert(pow10(0) == 1);
    assert(fixed_val(p) == digits_val(p.take(k)) * 1000000 + digits_val(p.skip(k + 1).take(6))
        * pow10(0));
    assert(fixed_val(p) == (n / 1000000) * 1000000 + n % 1000000);
}

/// A sequence of digit bytes contains no dots.
pub proof fn lemma_count_dots_no_dots(s: Seq<u8>)
    requires
        forall|j: int| 0 <= j < s.len() ==> is_digit(#[trigger] s[j]),
    ensures
        count_dots(s) == 0,
    decreases s.len(),
{
    if s.len() > 0 {
        lemma_count_dots_no_dots(s.drop_last());
    }
}

/// Dot counting over the specific shape digits + dot + digits.
pub proof fn lemma_count_dots_split(p: Seq<u8>, d: Seq<u8>, f: Seq<u8>)
    requires
        p =~= d + seq![46u8] + f,
        forall|j: int| 0 <= j < d.len() ==> is_digit(#[trigger] d[j]),
        forall|j: int| 0 <= j < f.len() ==> is_digit(#[trigger] f[j]),
    ensures
        count_dots(p) == 1,
    decreases f.len(),
{
    if f.len() == 0 {
        assert(p.last() == 46);
        assert(p.drop_last() =~= d);
        lemma_count_dots_no_dots(d);
    } else {
        lemma_count_dots_split(p.drop_last(), d, f.drop_last());
    }
}

/// A pending token as a singleton list, or nothing if it is empty.
pub open spec fn flush(cur: Seq<u8>) -> Seq<Seq<u8>> {
    if cur.len() > 0 {
        seq![cur]
    } else {
        Seq::empty()
    }
}

/// The whitespace-separated tokens of `s` from position `i` on, with `cur`
/// the partial token read so far.
pub open spec fn toks_from(s: Seq<u8>, i: int, cur: Seq<u8>) -> Seq<Seq<u8>>
    decreases s.len() - i,
{
    if !(0 <= i < s.len()) {
        flush(cur)
    } else if is_ws(s[i]) {
        flush(cur) + toks_from(s, i + 1, Seq::empty())
    } else {
        toks_from(s, i + 1, cur.push(s[i]))
    }
}

/// The whitespace-separated tokens of `s`: maximal runs of non-whitespace
/// bytes, in order.
pub open spec fn spec_tokenize(s: Seq<u8>) -> Seq<Seq<u8>> {
    toks_from(s, 0, Seq::empty())
}

/// Splits `s` into its whitespace-separated tokens.
pub fn tokenize(s: &[u8]) -> (r: Vec<Vec<u8>>)
    ensures
        r.deep_view() == spec_tokenize(s@),
{
    let mut out: Vec<Vec<u8>> = Vec::new();
    let mut cur: Vec<u8> = Vec::new();
    let mut i: usize = 0;
    proof {
        assert(out.deep_view() + toks_from(s@, 0, cur@) =~~= spec_tokenize(s@));
    }
    while i < s.len()
        invariant
            i <= s.len(),
            spec_tokenize(s@) == out.deep_view() + toks_from(s@, i as int, cur@),
        decreases s.len() - i,
    {
        let b = s[i];
        proof {
            assert(s@[i as int] == b);
        }
        if b == 32 || b == 9 || b == 10 || b == 11 || b == 12 || b == 13 {
            let ghost prev = out.deep_view();
            let ghost pcur = cur@;
            if cur.len() > 0 {
                out.push(cur);
                cur = Vec::new();
                proof {
                    assert(out.deep_view() =~~= prev + flush(pcur));
                }
            }
            proof {
                assert(cur@ =~= Seq::<u8>::empty());
                assert(toks_from(s@, i as int, pcur) == flush(pcur) + toks_from(
                    s@,
                    i as int + 1,
                    Seq::empty(),
                ));
                assert(out.deep_view() + toks_from(s@, i as int + 1, cur@) =~~= prev + (flush(pcur)
                    + toks_from(s@, i as int + 1, Seq::empty())));
            }
        } else {
            let ghost pcur = cur@;
            cur.push(b);
            proof {
                assert(toks_from(s@, i as int, pcur) == toks_from(s@, i as int + 1, cur@));
            }
        }
        i = i + 1;
    }
    proof {
        assert(toks_from(s@, i as int, cur@) == flush(cur@));
    }
    let ghost prev = out.deep_view();
    let ghost pcur = cur@;
    if cur.len() > 0 {
        out.push(cur);
        proof {
            assert(out.deep_view() =~~= prev + flush(pcur));
        }
    } else {
        proof {
            assert(out.deep_view() =~~= prev + flush(pcur));
        }
    }
    out
}

/// Tokenizing past the end of a left part continues in the right part.
pub proof fn lemma_toks_offset(a: Seq<u8>, b: Seq<u8>, j: int, cur: Seq<u8>)
    requires
        0 <= j,
    ensures
        toks_from(a + b, a.len() + j, cur) == toks_from(b, j, cur),
    decreases b.len() - j,
{
    if j < b.len() {
        assert((a + b)[a.len() + j] == b[j]);
        if is_ws(b[j]) {
            lemma_toks_offset(a, b, j + 1, Seq::empty());
        } else {
            lemma_toks_offset(a, b, j + 1, cur.push(b[j]));
        }
    }
}

/// If the left part ends with whitespace, tokenization splits at the
/// boundary.
pub proof fn lemma_toks_split(a: Seq<u8>, b: Seq<u8>, i: int, cur: Seq<u8>)
    requires
        a.len() >= 1,
        is_ws(a.last()),
        0 <= i <= a.len() - 1,
    ensures
        toks_from(a + b, i, cur) == toks_from(a, i, cur) + toks_from(b, 0, Seq::empty()),
    decreases a.len() - i,
{
    assert((a + b)[i] == a[i]);
    if i == a.len() - 1 {
        assert(is_ws(a[i]));
        lemma_toks_offset(a, b, 0, Seq::empty());
        assert(toks_from(a + b, i, cur) == flush(cur) + toks_from(b, 0, Seq::empty()));
        assert(toks_from(a, i, cur) =~= flush(cur));
        assert(toks_from(a + b, i, cur) =~= toks_from(a, i, cur) + toks_from(b, 0, Seq::empty()));
    } else {
        if is_ws(a[i]) {
            lemma_toks_split(a, b, i + 1, Seq::empty());
            assert(flush(cur) + (toks_from(a, i + 1, Seq::empty()) + toks_from(b, 0, Seq::empty()))
                =~= (flush(cur) + toks_from(a, i + 1, Seq::empty())) + toks_from(
                b,
                0,
                Seq::empty(),
            ));
        } else {
            lemma_toks_split(a, b, i + 1, cur.push(a[i]));
        }
    }
}

/// Tokenizing a single word followed by one whitespace byte yields exactly
/// that word.
pub proof fn lemma_tok_word(s: Seq<u8>, w: Seq<u8>, i: int, cur: Seq<u8>)
    requires
        s =~= w.push(s.last()),
        is_ws(s.last()),
        forall|j: int| 0 <= j < w.len() ==> !is_ws(#[trigger] w[j]),
        0 <= i <= w.len(),
    ensures
        toks_from(s, i, cur) == flush(cur + w.skip(i)),
    decreases s.len() - i,
{
    if i == w.len() {
        assert(is_ws(s[i]));
        assert(toks_from(s, i + 1, Seq::empty()) == flush(Seq::<u8>::empty()));
        assert(toks_from(s, i, cur) =~= flush(cur));
        assert(cur + w.skip(i) =~= cur);
    } else {
        assert(s[i] == w[i]);
        assert(!is_ws(s[i]));
        lemma_tok_word(s, w, i + 1, cur.push(s[i]));
        assert(cur.push(w[i]) + w.skip(i + 1) =~= cur + w.skip(i));
    }
}

/// The words joined with one separator after each word: `w0 s0 w1 s1 ...`.
pub open spec fn spec_join(words: Seq<Seq<u8>>, seps: Seq<u8>) -> Seq<u8>
    decreases words.len(),
{
    if words.len() == 0 {
        Seq::empty()
    } else {
        (words[0] + seq![seps[0]]) + spec_join(words.skip(1), seps.skip(1))
    }
}

/// Joining two word lists end to end joins their renderings.
pub proof fn lemma_join_concat(w1: Seq<Seq<u8>>, s1: Seq<u8>, w2: Seq<Seq<u8>>, s2: Seq<u8>)
    requires
        w1.len() == s1.len(),
    ensures
        spec_join(w1 + w2, s1 + s2) == spec_join(w1, s1) + spec_join(w2, s2),
    decreases w1.len(),
{
    if w1.len() == 0 {
        assert(w1 + w2 =~= w2);
        assert(s1 + s2 =~= s2);
        assert(spec_join(w1, s1) + spec_join(w2, s2) =~= spec_join(w2, s2));
    } else {
        assert((w1 + w2)[0] == w1[0]);
        assert((s1 + s2)[0] == s1[0]);
        assert((w1 + w2).skip(1) =~= w1.skip(1) + w2);
        assert((s1 + s2).skip(1) =~= s1.skip(1) + s2);
        lemma_join_concat(w1.skip(1), s1.skip(1), w2, s2);
        assert(spec_join(w1 + w2, s1 + s2) =~= spec_join(w1, s1) + spec_join(w2, s2));
    }
}

/// Tokenizing a join of non-empty non-whitespace words with whitespace
/// separators recovers exactly the words.
pub proof fn lemma_tokenize_join(words: Seq<Seq<u8>>, seps: Seq<u8>)
    requires
        words.len() == seps.len(),
        forall|k: int| 0 <= k < words.len() ==> #[trigger] words[k].len() >= 1,
        forall|k: int, j: int|
            0 <= k < words.len() && 0 <= j < words[k].len() ==> !is_ws(#[trigger] words[k][j]),
        forall|k: int| 0 <= k < seps.len() ==> is_ws(#[trigger] seps[k]),
    ensures
        spec_tokenize(spec_join(words, seps)) == words,
    decreases words.len(),
{
    if words.len() == 0 {
        assert(spec_tokenize(spec_join(words, seps)) =~= words);
    } else {
        let head = words[0] + seq![seps[0]];
        let rest = spec_join(words.skip(1), seps.skip(1));
        assert(head.last() == seps[0]);
        assert(head =~= words[0].push(head.last()));
        lemma_tokenize_join(words.skip(1), seps.skip(1));
        if head.len() >= 1 && 0 <= head.len() - 1 {
            lemma_toks_split(head, rest, 0, Seq::empty());
        }
        lemma_tok_word(head, words[0], 0, Seq::empty());
        assert(Seq::<u8>::empty() + words[0].skip(0) =~= words[0]);
        assert(flush(words[0]) + words.skip(1) =~= words);
        assert(spec_tokenize(spec_join(words, seps)) =~= words);
    }
}

/// Relies on `String::from_utf8_lossy`: bytes below 128 decode one to one
/// to the chars with the same code points.
#[verifier::external_body]
pub fn ascii_to_string(v: &Vec<u8>) -> (r: String)
    requires
        forall|i: int| 0 <= i < v@.len() ==> v@[i] < 128,
    ensures
        r@ == v@.map(|i: int, b: u8| b as char),
{
    String::from_utf8_lossy(v.as_slice()).into_owned()
}

/// True when `n` occurs as a contiguous run inside `h` starting at `i`.
pub open spec fn matches_at(h: Seq<u8>, n: Seq<u8>, i: int) -> bool {
    &&& 0 <= i
    &&& i + n.len() <= h.len()
    &&& h.subrange(i, i + n.len() as int) == n
}

/// True when `n` occurs as a contiguous run anywhere inside `h`.
pub open spec fn contains_seq(h: Seq<u8>, n: Seq<u8>) -> bool {
    exists|i: int| matches_at(h, n, i)
}

/// Reports whether `needle` occurs as a contiguous run inside `haystack`.
pub fn find_sub(haystack: &[u8], needle: &[u8]) -> (r: bool)
    ensures
        r == contains_seq(haystack@, needle@),
{
    if needle.len() == 0 {
        proof {
            assert(haystack@.subrange(0, 0) =~= needle@);
            assert(matches_at(haystack@, needle@, 0));
        }
        return true;
    }
    let mut i: usize = 0;
    while needle.len() <= haystack.len() - i
        invariant
            needle@.len() >= 1,
            i <= haystack@.len(),
            forall|k: int| 0 <= k < i ==> !matches_at(haystack@, needle@, k),
        decreases haystack.len() - i,
    {
        let mut j: usize = 0;
        let mut ok = true;
        while j < needle.len()
            invariant
                haystack@.len() <= usize::MAX,
                i + needle@.len() <= haystack@.len(),
                j <= needle@.len(),
                ok ==> forall|t: int| 0 <= t < j ==> haystack@[i + t] == needle@[t],
                !ok ==> !matches_at(haystack@, needle@, i as int) && j == needle@.len(),
            decreases needle.len() - j,
        {
            if haystack[i + j] == needle[j] {
                j = j + 1;
            } else {
                proof {
                    assert(haystack@[i + j as int] != needle@[j as int]);
                    assert(!matches_at(haystack@, needle@, i as int)) by {
                        if matches_at(haystack@, needle@, i as int) {
                            assert(needle@[j as int] == haystack@.subrange(
                                i as int,
                                i + needle@.len() as int,
                            )[j as int]);
                        }
                    };
                }
                ok = false;
                j = needle.len();
            }
        }
        if ok {
            proof {
                assert(haystack@.subrange(i as int, i + needle@.len() as int) =~= needle@);
                assert(matches_at(haystack@, needle@, i as int));
            }
            return true;
        }
        i = i + 1;
    }
    proof {
        assert(forall|k: int|
            #![trigger matches_at(haystack@, needle@, k)]
            matches_at(haystack@, needle@, k) ==> k < i);
    }
    false
}

} // verus!
