//! Extracting a reading from a response body: the body's bytes, trimmed
//! of surrounding ASCII whitespace, are parsed as a base-10 signed
//! integer.

use vstd::prelude::*;
use vstd::string::StringSliceAdditionalSpecFns;

verus! {

/// An ASCII whitespace byte: tab, line feed, vertical tab, form feed,
/// carriage return, or space.
pub open spec fn is_ws_byte(b: u8) -> bool {
    b == 32 || (9 <= b && b <= 13)
}

/// An ASCII decimal digit byte, `'0'` through `'9'`.
pub open spec fn is_digit_byte(b: u8) -> bool {
    48 <= b && b <= 57
}

/// The bytes that remain after removing leading whitespace.
pub open spec fn trim_front(s: Seq<u8>) -> Seq<u8>
    decreases s.len(),
{
    if s.len() > 0 && is_ws_byte(s[0]) {
        trim_front(s.drop_first())
    } else {
        s
    }
}

/// The bytes that remain after removing trailing whitespace.
pub open spec fn trim_back(s: Seq<u8>) -> Seq<u8>
    decreases s.len(),
{
    if s.len() > 0 && is_ws_byte(s.last()) {
        trim_back(s.drop_last())
    } else {
        s
    }
}

/// The bytes that remain after removing whitespace from both ends.
pub open spec fn trim_of(s: Seq<u8>) -> Seq<u8> {
    trim_back(trim_front(s))
}

/// Every byte of the sequence is a decimal digit.
pub open spec fn all_digits(s: Seq<u8>) -> bool {
    forall|i: int| 0 <= i < s.len() ==> is_digit_byte(#[trigger] s[i])
}

/// The value of a sequence of decimal digit bytes, most significant
/// digit first.
pub open spec fn digits_value(s: Seq<u8>) -> int
    decreases s.len(),
{
    if s.len() == 0 {
        0
    } else {
        10 * digits_value(s.drop_last()) + (s.last() - 48)
    }
}

/// Whether a byte sequence is the text of a base-10 signed integer: an
/// optional leading `+` or `-` followed by one or more decimal digits.
pub open spec fn is_reading_text(s: Seq<u8>) -> bool {
    if s.len() == 0 {
        false
    } else if s[0] == 43 || s[0] == 45 {
        s.len() > 1 && all_digits(s.drop_first())
    } else {
        all_digits(s)
    }
}

/// The integer value of the text of a base-10 signed integer.
pub open spec fn reading_text_value(s: Seq<u8>) -> int {
    if s.len() > 0 && s[0] == 45 {
        -digits_value(s.drop_first())
    } else if s.len() > 0 && s[0] == 43 {
        digits_value(s.drop_first())
    } else {
        digits_value(s)
    }
}

/// What a response body parses to: the reading, when the body trimmed of
/// surrounding whitespace is the text of a base-10 signed integer that
/// fits in an `i32`; nothing otherwise.
pub open spec fn parsed_reading(body: Seq<u8>) -> Option<i32> {
    let t = trim_of(body);
    if is_reading_text(t) && i32::MIN <= reading_text_value(t) <= i32::MAX {
        Some(reading_text_value(t) as i32)
    } else {
        None
    }
}

proof fn lemma_digits_value_nonneg(s: Seq<u8>)
    requires
        all_digits(s),
    ensures
        digits_value(s) >= 0,
    decreases s.len(),
{
    if s.len() > 0 {
        assert(all_digits(s.drop_last()));
        lemma_digits_value_nonneg(s.drop_last());
    }
}

/// A prefix of a digit string never exceeds the whole: appending digits
/// can only grow the value.
proof fn lemma_digits_value_prefix(s: Seq<u8>, m: int)
    requires
        all_digits(s),
        0 <= m <= s.len(),
    ensures
        digits_value(s.subrange(0, m)) <= digits_value(s),
    decreases s.len(),
{
    if m == s.len() {
        assert(s.subrange(0, m) =~= s);
    } else {
        let d = s.drop_last();
        assert(all_digits(d));
        assert(s.subrange(0, m) =~= d.subrange(0, m));
        lemma_digits_value_prefix(d, m);
        lemma_digits_value_nonneg(d);
    }
}

proof fn lemma_trim_front_ws_prefix(w: Seq<u8>, s: Seq<u8>)
    requires
        forall|i: int| 0 <= i < w.len() ==> is_ws_byte(#[trigger] w[i]),
    ensures
        trim_front(w + s) == trim_front(s),
    decreases w.len(),
{
    if w.len() == 0 {
        assert(w + s =~= s);
    } else {
        assert((w + s).drop_first() =~= w.drop_first() + s);
        lemma_trim_front_ws_prefix(w.drop_first(), s);
    }
}

proof fn lemma_trim_back_ws_suffix(s: Seq<u8>, w: Seq<u8>)
    requires
        forall|i: int| 0 <= i < w.len() ==> is_ws_byte(#[trigger] w[i]),
    ensures
        trim_back(s + w) == trim_back(s),
    decreases w.len(),
{
    if w.len() == 0 {
        assert(s + w =~= s);
    } else {
        assert((s + w).last() == w.last());
        assert((s + w).drop_last() =~= s + w.drop_last());
        lemma_trim_back_ws_suffix(s, w.drop_last());
    }
}

/// Surrounding whitespace never changes the reading: a body that is an
/// integer text wrapped in any amount of leading and trailing whitespace
/// parses to exactly what the bare text parses to.
pub proof fn lemma_whitespace_ignored(pre: Seq<u8>, text: Seq<u8>, post: Seq<u8>)
    requires
        forall|i: int| 0 <= i < pre.len() ==> is_ws_byte(#[trigger] pre[i]),
        forall|i: int| 0 <= i < post.len() ==> is_ws_byte(#[trigger] post[i]),
        is_reading_text(text),
    ensures
        parsed_reading(pre + text + post) == parsed_reading(text),
{
    // the first and last bytes of an integer text are a sign or a digit,
    // never whitespace
    assert(!is_ws_byte(text[0]));
    if text[0] == 43 || text[0] == 45 {
        assert(text.drop_first()[text.len() - 2] == text.last());
    }
    assert(!is_ws_byte(text.last()));

    assert(pre + text + post =~= pre + (text + post));
    lemma_trim_front_ws_prefix(pre, text + post);
    assert((text + post)[0] == text[0]);
    assert(trim_front(text + post) == text + post);
    lemma_trim_back_ws_suffix(text, post);
    assert(trim_back(text) == text);
    assert(trim_of(pre + text + post) == text);
    assert(trim_front(text) == text);
    assert(trim_of(text) == text);
}

/// Whether a byte is an ASCII whitespace byte.
fn ws_byte(b: u8) -> (r: bool)
    ensures
        r == is_ws_byte(b),
{
    b == 32 || (9 <= b && b <= 13)
}

/// Extracts the reading from a response body: the body's UTF-8 bytes,
/// trimmed of surrounding ASCII whitespace, are parsed as a base-10
/// signed integer with an optional leading sign. Returns the value when
/// the trimmed text is such an integer and fits in an `i32`; `None` on
/// an empty or non-numeric body and on overflow.
#[verifier::loop_isolation(false)]
pub fn parse_reading(body: &str) -> (r: Option<i32>)
    ensures
        r == parsed_reading(body.spec_bytes()),
{
    let bytes: &[u8] = body.as_bytes();
    let n: usize = bytes.len();

    proof {
        assert(bytes@.subrange(0, n as int) =~= bytes@);
    }
    let mut lo: usize = 0;
    while lo < n && ws_byte(bytes[lo])
        invariant
            lo <= n,
            trim_front(bytes@) == trim_front(bytes@.subrange(lo as int, n as int)),
        decreases n - lo,
    {
        proof {
            assert(bytes@.subrange(lo as int, n as int).drop_first() =~= bytes@.subrange(
                lo as int + 1,
                n as int,
            ));
        }
        lo = lo + 1;
    }
    assert(trim_front(bytes@) == bytes@.subrange(lo as int, n as int));

    let mut hi: usize = n;
    while hi > lo && ws_byte(bytes[hi - 1])
        invariant
            lo <= hi <= n,
            trim_back(bytes@.subrange(lo as int, n as int)) == trim_back(
                bytes@.subrange(lo as int, hi as int),
            ),
        decreases hi,
    {
        proof {
            assert(bytes@.subrange(lo as int, hi as int).drop_last() =~= bytes@.subrange(
                lo as int,
                hi as int - 1,
            ));
        }
        hi = hi - 1;
    }
    let ghost t = bytes@.subrange(lo as int, hi as int);
    assert(trim_of(bytes@) == t);

    if lo == hi {
        return None;
    }

    let first: u8 = bytes[lo];
    let neg = first == 45;
    let start: usize = if first == 45 || first == 43 {
        lo + 1
    } else {
        lo
    };
    if start == hi {
        // a bare sign with no digits after it
        return None;
    }

    let mut acc: u64 = 0;
    let mut i: usize = start;
    while i < hi
        invariant
            start <= i <= hi,
            all_digits(bytes@.subrange(start as int, i as int)),
            acc == digits_value(bytes@.subrange(start as int, i as int)),
            acc <= 2147483648,
        decreases hi - i,
    {
        let b: u8 = bytes[i];
        if b < 48 || b > 57 {
            proof {
                if first == 45 || first == 43 {
                    assert(t.drop_first() =~= bytes@.subrange(start as int, hi as int));
                    assert(t.drop_first()[i - start] == bytes@[i as int]);
                    assert(!is_reading_text(t));
                } else {
                    assert(t[i - lo] == bytes@[i as int]);
                    assert(!is_reading_text(t));
                }
            }
            return None;
        }
        proof {
            assert(bytes@.subrange(start as int, i as int + 1).drop_last() =~= bytes@.subrange(
                start as int,
                i as int,
            ));
        }
        acc = acc * 10 + ((b - 48) as u64);
        i = i + 1;
        if acc > 2147483648 {
            proof {
                lemma_out_of_range(bytes@, t, lo as int, start as int, i as int, hi as int, acc as int);
            }
            return None;
        }
    }

    proof {
        if first == 45 || first == 43 {
            assert(t.drop_first() =~= bytes@.subrange(start as int, hi as int));
        } else {
            assert(t =~= bytes@.subrange(start as int, hi as int));
        }
        assert(is_reading_text(t));
    }

    if neg {
        let v: i64 = -(acc as i64);
        assert(reading_text_value(t) == v as int);
        Some(v as i32)
    } else {
        if acc > 2147483647 {
            assert(reading_text_value(t) > i32::MAX);
            return None;
        }
        assert(reading_text_value(t) == acc as int);
        Some(acc as i32)
    }
}

/// Once the digits scanned so far already exceed the magnitude an `i32`
/// can carry, the whole body is out of range, whatever follows.
proof fn lemma_out_of_range(s: Seq<u8>, t: Seq<u8>, lo: int, start: int, i: int, hi: int, acc: int)
    requires
        0 <= lo <= start <= i <= hi <= s.len(),
        start == lo || start == lo + 1,
        t == s.subrange(lo, hi),
        trim_of(s) == t,
        t.len() > 0,
        start == lo + 1 <==> (t[0] == 43 || t[0] == 45),
        start < hi,
        all_digits(s.subrange(start, i)),
        acc == digits_value(s.subrange(start, i)),
        acc > 2147483648,
    ensures
        parsed_reading(s) == Option::<i32>::None,
{
    if is_reading_text(t) {
        let digits = s.subrange(start, hi);
        if start == lo + 1 {
            assert(t.drop_first() =~= digits);
        } else {
            assert(t =~= digits);
        }
        assert(all_digits(digits));
        assert(digits.subrange(0, i - start) =~= s.subrange(start, i));
        lemma_digits_value_prefix(digits, i - start);
        assert(digits_value(digits) > 2147483648);
    }
}

} // verus!
