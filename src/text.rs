use vstd::prelude::*;
use vstd::string::StringExecFns;

verus! {

/// Unicode `White_Space`, the set that separates the words of a command line.
pub open spec fn is_space(c: char) -> bool {
    c == ' ' || ('\t' <= c && c <= '\r') || c == '\u{85}' || c == '\u{a0}' || c == '\u{1680}'
        || ('\u{2000}' <= c && c <= '\u{200a}') || c == '\u{2028}' || c == '\u{2029}' || c
        == '\u{202f}' || c == '\u{205f}' || c == '\u{3000}'
}

/// The words of `t`, where `cur` is a word already begun before `t`.
pub open spec fn words_from(t: Seq<char>, cur: Seq<char>) -> Seq<Seq<char>>
    decreases t.len(),
{
    if t.len() == 0 {
        if cur.len() > 0 {
            seq![cur]
        } else {
            seq![]
        }
    } else if is_space(t[0]) {
        (if cur.len() > 0 {
            seq![cur]
        } else {
            seq![]
        }) + words_from(t.drop_first(), seq![])
    } else {
        words_from(t.drop_first(), cur.push(t[0]))
    }
}

/// The maximal runs of non-space characters of `s`, in order.
pub open spec fn words(s: Seq<char>) -> Seq<Seq<char>> {
    words_from(s, seq![])
}

/// Whether `c` is a space, as `is_space` says.
pub fn is_space_char(c: char) -> (r: bool)
    ensures
        r == is_space(c),
{
    c == ' ' || ('\t' <= c && c <= '\r') || c == '\u{85}' || c == '\u{a0}' || c == '\u{1680}'
        || ('\u{2000}' <= c && c <= '\u{200a}') || c == '\u{2028}' || c == '\u{2029}' || c
        == '\u{202f}' || c == '\u{205f}' || c == '\u{3000}'
}

/// The bounds of each word of `chars`.
pub fn split_words(chars: &Vec<char>) -> (spans: Vec<(usize, usize)>)
    ensures
        spans@.len() == words(chars@).len(),
        forall|k: int|
            #![trigger spans@[k]]
            0 <= k < spans@.len() ==> spans@[k].0 <= spans@[k].1 && spans@[k].1 <= chars@.len(),
        forall|k: int|
            0 <= k < spans@.len() ==> #[trigger] chars@.subrange(
                spans@[k].0 as int,
                spans@[k].1 as int,
            ) == words(chars@)[k],
{
    let s = Ghost(chars@);
    let mut spans: Vec<(usize, usize)> = Vec::new();
    let ghost mut found: Seq<Seq<char>> = seq![];
    let mut start: usize = 0;
    let mut i: usize = 0;
    assert(s@.skip(0) =~= s@);
    assert(s@.subrange(0, 0) =~= seq![]);
    assert(seq![] + words(s@) =~= words(s@));
    while i < chars.len()
        invariant
            s@ == chars@,
            start <= i <= chars@.len(),
            spans@.len() == found.len(),
            forall|k: int|
                #![trigger spans@[k]]
                0 <= k < spans@.len() ==> spans@[k].0 <= spans@[k].1 && spans@[k].1 <= chars@.len(),
            forall|k: int|
                0 <= k < spans@.len() ==> #[trigger] chars@.subrange(
                    spans@[k].0 as int,
                    spans@[k].1 as int,
                ) == found[k],
            words(s@) == found + words_from(s@.skip(i as int), s@.subrange(start as int, i as int)),
        decreases chars@.len() - i,
    {
        let c = chars[i];
        let ghost t = s@.skip(i as int);
        let ghost cur = s@.subrange(start as int, i as int);
        assert(t.drop_first() =~= s@.skip(i + 1));
        assert(t[0] == c);
        if is_space_char(c) {
            if start < i {
                let ghost sp0 = spans@;
                spans.push((start, i));
                proof {
                    let prev = found;
                    found = found.push(cur);
                    assert forall|k: int| 0 <= k < spans@.len() implies {
                        &&& spans@[k].0 <= spans@[k].1 <= chars@.len()
                        &&& #[trigger] chars@.subrange(spans@[k].0 as int, spans@[k].1 as int)
                            == found[k]
                    } by {
                        if k < prev.len() {
                            assert(spans@[k] == sp0[k]);
                            assert(found[k] == prev[k]);
                            assert(chars@.subrange(sp0[k].0 as int, sp0[k].1 as int) == prev[k]);
                        } else {
                            assert(spans@[k] == (start, i));
                            assert(chars@.subrange(start as int, i as int) == cur);
                        }
                    }
                    assert(words(s@) == found + words_from(s@.skip(i + 1), seq![])) by {
                        assert(found.drop_last() + seq![cur] =~= found);
                        assert(found.drop_last() + (seq![cur] + words_from(s@.skip(i + 1), seq![]))
                            =~= found + words_from(s@.skip(i + 1), seq![]));
                    }
                }
            } else {
                assert(seq![] + words_from(s@.skip(i + 1), seq![]) =~= words_from(s@.skip(i + 1), seq![]));
            }
            start = i + 1;
            assert(s@.subrange(start as int, start as int) =~= seq![]);
        } else {
            assert(cur.push(c) =~= s@.subrange(start as int, i + 1));
        }
        i = i + 1;
    }
    proof {
        let cur = s@.subrange(start as int, i as int);
        assert(s@.skip(i as int) =~= seq![]);
        if cur.len() > 0 {
            assert(found + seq![cur] =~= found.push(cur));
        } else {
            assert(found + seq![] =~= found);
        }
    }
    if start < i {
        let ghost sp0 = spans@;
        spans.push((start, i));
        proof {
            let prev = found;
            found = found.push(s@.subrange(start as int, i as int));
            assert forall|k: int| 0 <= k < spans@.len() implies {
                &&& spans@[k].0 <= spans@[k].1 <= chars@.len()
                &&& #[trigger] chars@.subrange(spans@[k].0 as int, spans@[k].1 as int) == found[k]
            } by {
                if k < prev.len() {
                    assert(spans@[k] == sp0[k]);
                    assert(found[k] == prev[k]);
                    assert(chars@.subrange(sp0[k].0 as int, sp0[k].1 as int) == prev[k]);
                } else {
                    assert(spans@[k] == (start, i));
                }
            }
        }
    }
    assert(found == words(chars@));
    spans
}

pub open spec fn is_digit(c: char) -> bool {
    '0' <= c && c <= '9'
}

pub open spec fn digit_value(c: char) -> int {
    c as int - '0' as int
}

/// The number written by the decimal digits `s`.
pub open spec fn digits_value(s: Seq<char>) -> int
    decreases s.len(),
{
    if s.len() == 0 {
        0
    } else {
        digits_value(s.drop_last()) * 10 + digit_value(s.last())
    }
}

/// The number written by `s` if it is one or more decimal digits.
pub open spec fn magnitude(s: Seq<char>) -> Option<int> {
    if s.len() > 0 && forall|i: int| 0 <= i < s.len() ==> is_digit(#[trigger] s[i]) {
        Some(digits_value(s))
    } else {
        None
    }
}

/// The value of an unsigned integer field: digits, with an optional `+`.
pub open spec fn unsigned_value(s: Seq<char>) -> Option<int> {
    if s.len() > 0 && s[0] == '+' {
        magnitude(s.drop_first())
    } else {
        magnitude(s)
    }
}

/// The value of a signed integer field: digits, with an optional `+` or `-`.
pub open spec fn signed_value(s: Seq<char>) -> Option<int> {
    if s.len() > 0 && s[0] == '-' {
        match magnitude(s.drop_first()) {
            Some(v) => Some(-v),
            None => None,
        }
    } else {
        unsigned_value(s)
    }
}

proof fn lemma_digits_value_grows(s: Seq<char>, k: int)
    requires
        0 <= k <= s.len(),
        forall|i: int| 0 <= i < s.len() ==> is_digit(#[trigger] s[i]),
    ensures
        digits_value(s.take(k)) <= digits_value(s),
        0 <= digits_value(s),
    decreases s.len(),
{
    if s.len() > 0 {
        let p = s.drop_last();
        assert forall|i: int| 0 <= i < p.len() implies is_digit(#[trigger] p[i]) by {
            assert(p[i] == s[i]);
        }
        if k < s.len() {
            lemma_digits_value_grows(p, k);
            assert(p.take(k) =~= s.take(k));
        } else {
            lemma_digits_value_grows(p, 0);
            assert(s.take(k) =~= s);
        }
    }
}

/// The number written by the digits `chars[lo..hi]`, if it is one and fits.
fn parse_magnitude(chars: &Vec<char>, lo: usize, hi: usize) -> (r: Option<u64>)
    requires
        lo <= hi <= chars@.len(),
    ensures
        match r {
            Some(v) => magnitude(chars@.subrange(lo as int, hi as int)) == Some(v as int),
            None => match magnitude(chars@.subrange(lo as int, hi as int)) {
                Some(v) => v > u64::MAX,
                None => true,
            },
        },
{
    let ghost s = chars@.subrange(lo as int, hi as int);
    if lo == hi {
        return None;
    }
    let mut acc: u64 = 0;
    let mut i: usize = lo;
    while i < hi
        invariant
            lo <= i <= hi <= chars@.len(),
            s == chars@.subrange(lo as int, hi as int),
            forall|j: int| lo <= j < i ==> is_digit(#[trigger] chars@[j]),
            acc == digits_value(chars@.subrange(lo as int, i as int)),
        decreases hi - i,
    {
        let c = chars[i];
        let ghost p = chars@.subrange(lo as int, i + 1);
        assert(p.drop_last() =~= chars@.subrange(lo as int, i as int));
        if !('0' <= c && c <= '9') {
            assert(s[i - lo] == c);
            return None;
        }
        let d = (c as u32 - '0' as u32) as u64;
        match acc.checked_mul(10) {
            Some(m) => match m.checked_add(d) {
                Some(v) => {
                    acc = v;
                },
                None => {
                    proof {
                        if forall|j: int| 0 <= j < s.len() ==> is_digit(#[trigger] s[j]) {
                            lemma_digits_value_grows(s, i + 1 - lo);
                            assert(s.take(i + 1 - lo) =~= p);
                        }
                    }
                    return None;
                },
            },
            None => {
                proof {
                    if forall|j: int| 0 <= j < s.len() ==> is_digit(#[trigger] s[j]) {
                        lemma_digits_value_grows(s, i + 1 - lo);
                        assert(s.take(i + 1 - lo) =~= p);
                        assert forall|j: int| 0 <= j < i - lo implies is_digit(#[trigger] chars@.subrange(lo as int, i as int)[j]) by {
                            assert(chars@.subrange(lo as int, i as int)[j] == chars@[lo + j]);
                        }
                        lemma_digits_value_grows(chars@.subrange(lo as int, i as int), 0);
                    }
                }
                return None;
            },
        }
        i = i + 1;
    }
    assert(chars@.subrange(lo as int, i as int) =~= s);
    assert forall|j: int| 0 <= j < s.len() implies is_digit(#[trigger] s[j]) by {
        assert(s[j] == chars@[lo + j]);
    }
    Some(acc)
}

/// Parses `chars[lo..hi]` as an unsigned field, keeping values up to `u64::MAX`.
fn parse_unsigned(chars: &Vec<char>, lo: usize, hi: usize) -> (r: Option<u64>)
    requires
        lo <= hi <= chars@.len(),
    ensures
        match r {
            Some(v) => unsigned_value(chars@.subrange(lo as int, hi as int)) == Some(v as int),
            None => match unsigned_value(chars@.subrange(lo as int, hi as int)) {
                Some(v) => v > u64::MAX,
                None => true,
            },
        },
{
    let ghost s = chars@.subrange(lo as int, hi as int);
    if lo < hi && chars[lo] == '+' {
        assert(s.drop_first() =~= chars@.subrange(lo + 1, hi as int));
        parse_magnitude(chars, lo + 1, hi)
    } else {
        parse_magnitude(chars, lo, hi)
    }
}

/// Parses `chars[lo..hi]` as a `u32` field.
pub fn parse_u32(chars: &Vec<char>, lo: usize, hi: usize) -> (r: Option<u32>)
    requires
        lo <= hi <= chars@.len(),
    ensures
        match r {
            Some(v) => unsigned_value(chars@.subrange(lo as int, hi as int)) == Some(v as int),
            None => match unsigned_value(chars@.subrange(lo as int, hi as int)) {
                Some(v) => v > u32::MAX,
                None => true,
            },
        },
{
    match parse_unsigned(chars, lo, hi) {
        Some(v) => if v <= u32::MAX as u64 {
            Some(v as u32)
        } else {
            None
        },
        None => None,
    }
}

/// Parses `chars[lo..hi]` as a `usize` field.
pub fn parse_usize(chars: &Vec<char>, lo: usize, hi: usize) -> (r: Option<usize>)
    requires
        lo <= hi <= chars@.len(),
    ensures
        match r {
            Some(v) => unsigned_value(chars@.subrange(lo as int, hi as int)) == Some(v as int),
            None => match unsigned_value(chars@.subrange(lo as int, hi as int)) {
                Some(v) => v > usize::MAX,
                None => true,
            },
        },
{
    match parse_unsigned(chars, lo, hi) {
        Some(v) => if v <= usize::MAX as u64 {
            Some(v as usize)
        } else {
            None
        },
        None => None,
    }
}

/// Parses `chars[lo..hi]` as an `i64` field.
pub fn parse_i64(chars: &Vec<char>, lo: usize, hi: usize) -> (r: Option<i64>)
    requires
        lo <= hi <= chars@.len(),
    ensures
        match r {
            Some(v) => signed_value(chars@.subrange(lo as int, hi as int)) == Some(v as int),
            None => match signed_value(chars@.subrange(lo as int, hi as int)) {
                Some(v) => v < i64::MIN || v > i64::MAX,
                None => true,
            },
        },
{
    let ghost s = chars@.subrange(lo as int, hi as int);
    if lo < hi && chars[lo] == '-' {
        assert(s.drop_first() =~= chars@.subrange(lo + 1, hi as int));
        match parse_magnitude(chars, lo + 1, hi) {
            Some(m) => if m <= 0x8000_0000_0000_0000u64 {
                if m == 0x8000_0000_0000_0000u64 {
                    Some(i64::MIN)
                } else {
                    Some(-(m as i64))
                }
            } else {
                None
            },
            None => None,
        }
    } else {
        match parse_unsigned(chars, lo, hi) {
            Some(v) => if v <= i64::MAX as u64 {
                Some(v as i64)
            } else {
                None
            },
            None => None,
        }
    }
}

/// The decimal digit for `d < 10`.
pub open spec fn digit_char(d: int) -> char {
    seq!['0', '1', '2', '3', '4', '5', '6', '7', '8', '9'][d]
}

/// The decimal representation of `n`, without leading zeros.
pub open spec fn decimal(n: nat) -> Seq<char>
    decreases n,
{
    if n < 10 {
        seq![digit_char(n as int)]
    } else {
        decimal(n / 10).push(digit_char((n % 10) as int))
    }
}

fn digit_str(d: u64) -> (r: &'static str)
    requires
        d < 10,
    ensures
        r@ == seq![digit_char(d as int)],
{
    proof {
        reveal_strlit("0");
        reveal_strlit("1");
        reveal_strlit("2");
        reveal_strlit("3");
        reveal_strlit("4");
        reveal_strlit("5");
        reveal_strlit("6");
        reveal_strlit("7");
        reveal_strlit("8");
        reveal_strlit("9");
    }
    let r = if d == 0 {
        "0"
    } else if d == 1 {
        "1"
    } else if d == 2 {
        "2"
    } else if d == 3 {
        "3"
    } else if d == 4 {
        "4"
    } else if d == 5 {
        "5"
    } else if d == 6 {
        "6"
    } else if d == 7 {
        "7"
    } else if d == 8 {
        "8"
    } else {
        "9"
    };
    assert(r@ =~= seq![digit_char(d as int)]);
    r
}

/// Appends the decimal representation of `n` to `out`.
pub fn push_decimal(out: &mut String, n: u64)
    ensures
        final(out)@ == old(out)@ + decimal(n as nat),
    decreases n,
{
    if n >= 10 {
        push_decimal(out, n / 10);
    }
    out.append(digit_str(n % 10));
    proof {
        if n >= 10 {
            assert(old(out)@ + decimal(n as nat) =~= old(out)@ + decimal((n / 10) as nat) + seq![digit_char((n % 10) as int)]);
        } else {
            assert(old(out)@ + decimal(n as nat) =~= old(out)@ + seq![digit_char((n % 10) as int)]);
        }
    }
}

} // verus!
