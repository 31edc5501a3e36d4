use vstd::prelude::*;
use vstd::string::*;
use crate::outside::push_char;

verus! {

// The session token travels as text: every piece is written as decimal
// digits or length-prefixed raw characters, so that parsing is unambiguous
// whatever a club name contains.

pub open spec fn is_digit(c: char) -> bool {
    48 <= c as int && c as int <= 57
}

pub open spec fn digit_val(c: char) -> int {
    c as int - 48
}

pub open spec fn dec_digit(d: int) -> char {
    ((48 + d) as u8) as char
}

/// Decimal digits of `n`, most significant first, no leading zeros.
pub open spec fn dec_of(n: nat) -> Seq<char>
    decreases n,
{
    if n < 10 {
        seq![dec_digit(n as int)]
    } else {
        dec_of((n / 10) as nat).push(dec_digit((n % 10) as int))
    }
}

/// A number field: decimal digits closed by `:`.
pub open spec fn enc_num(n: nat) -> Seq<char> {
    dec_of(n) + seq![':']
}

/// A string field: its length as a number field, then its characters raw.
pub open spec fn enc_str(s: Seq<char>) -> Seq<char> {
    enc_num(s.len()) + s
}

/// Value of a digit string, most significant digit first.
pub open spec fn digits_val(ds: Seq<char>) -> int
    decreases ds.len(),
{
    if ds.len() == 0 {
        0
    } else {
        digits_val(ds.drop_last()) * 10 + digit_val(ds.last())
    }
}

/// Index of the first character that is not a decimal digit (the length of
/// `s` when all of it is digits).
pub open spec fn first_nondigit(s: Seq<char>) -> int
    decreases s.len(),
{
    if s.len() == 0 {
        0
    } else if !is_digit(s[0]) {
        0
    } else {
        1 + first_nondigit(s.skip(1))
    }
}

/// Read a number field from the front of `s`: at least one digit, a `:`
/// terminator, and a value that fits in u64.
pub open spec fn parse_num(s: Seq<char>) -> Option<(u64, Seq<char>)> {
    let k = first_nondigit(s);
    if k < 1 {
        None
    } else if k >= s.len() {
        None
    } else if s[k] != ':' {
        None
    } else if digits_val(s.take(k)) > u64::MAX {
        None
    } else {
        Some((digits_val(s.take(k)) as u64, s.skip(k + 1)))
    }
}

/// Read a string field from the front of `s`.
pub open spec fn parse_str(s: Seq<char>) -> Option<(Seq<char>, Seq<char>)> {
    match parse_num(s) {
        None => None,
        Some((n, rest)) => if rest.len() < n {
            None
        } else {
            Some((rest.take(n as int), rest.skip(n as int)))
        },
    }
}

/// Every character `dec_of` writes is a digit, and they read back as `n`.
pub proof fn lemma_dec_of(n: nat)
    ensures
        dec_of(n).len() >= 1,
        forall|i: int| 0 <= i < dec_of(n).len() ==> is_digit(#[trigger] dec_of(n)[i]),
        digits_val(dec_of(n)) == n,
    decreases n,
{
    if n < 10 {
        assert(dec_of(n) == seq![dec_digit(n as int)]);
        assert(dec_digit(n as int) as int == 48 + n);
        assert(dec_of(n).drop_last() =~= Seq::<char>::empty());
        assert(digits_val(dec_of(n)) == digit_val(dec_digit(n as int))) by {
            reveal_with_fuel(digits_val, 3);
            assert(dec_of(n).drop_last() == Seq::<char>::empty());
        }
    } else {
        lemma_dec_of((n / 10) as nat);
        let pre = dec_of((n / 10) as nat);
        let d = dec_digit((n % 10) as int);
        assert(0 <= n % 10 < 10);
        assert(d as int == 48 + n % 10);
        assert(dec_of(n) == pre.push(d));
        assert(dec_of(n).drop_last() =~= pre);
        assert(dec_of(n).last() == d);
        assert(digits_val(dec_of(n)) == (n / 10) * 10 + n % 10);
        assert((n / 10) * 10 + n % 10 == n) by {
            vstd::arithmetic::div_mod::lemma_fundamental_div_mod(n as int, 10);
        }
        assert forall|i: int| 0 <= i < dec_of(n).len() implies is_digit(
            #[trigger] dec_of(n)[i],
        ) by {
            if i < pre.len() {
                assert(dec_of(n)[i] == pre[i]);
            }
        }
    }
}

/// A scan that saw digits up to `i` and a non-digit (or the end) at `i` has
/// found `first_nondigit`.
pub proof fn lemma_first_nondigit_scan(s: Seq<char>, i: int)
    requires
        0 <= i <= s.len(),
        forall|j: int| 0 <= j < i ==> is_digit(#[trigger] s[j]),
        i < s.len() ==> !is_digit(s[i]),
    ensures
        first_nondigit(s) == i,
    decreases i,
{
    if i == 0 {
    } else {
        assert(is_digit(s[0]));
        assert forall|j: int| 0 <= j < i - 1 implies is_digit(#[trigger] s.skip(1)[j]) by {
            assert(s.skip(1)[j] == s[j + 1]);
        }
        if i - 1 < s.skip(1).len() {
            assert(s.skip(1)[i - 1] == s[i]);
        }
        lemma_first_nondigit_scan(s.skip(1), i - 1);
    }
}

/// The value of a digit string never shrinks as more digits are read.
pub proof fn lemma_digits_val_bounds(ds: Seq<char>)
    requires
        forall|j: int| 0 <= j < ds.len() ==> is_digit(#[trigger] ds[j]),
    ensures
        0 <= digits_val(ds),
        forall|a: int|
            0 <= a <= ds.len() ==> digits_val(#[trigger] ds.take(a)) <= digits_val(ds),
    decreases ds.len(),
{
    if ds.len() == 0 {
        assert forall|a: int| 0 <= a <= ds.len() implies digits_val(#[trigger] ds.take(a))
            <= digits_val(ds) by {
            assert(ds.take(a) =~= ds);
        }
    } else {
        let pre = ds.drop_last();
        assert forall|j: int| 0 <= j < pre.len() implies is_digit(#[trigger] pre[j]) by {
            assert(pre[j] == ds[j]);
        }
        lemma_digits_val_bounds(pre);
        assert(0 <= digit_val(ds.last()) <= 9);
        assert(digits_val(ds) == digits_val(pre) * 10 + digit_val(ds.last()));
        assert(digits_val(pre) * 10 >= digits_val(pre)) by {
            assert(digits_val(pre) >= 0);
        }
        assert forall|a: int| 0 <= a <= ds.len() implies digits_val(#[trigger] ds.take(a))
            <= digits_val(ds) by {
            if a == ds.len() {
                assert(ds.take(a) =~= ds);
            } else {
                assert(ds.take(a) =~= pre.take(a));
            }
        }
    }
}

/// Reading a number field back from what `enc_num` wrote yields the number
/// and the untouched remainder.
pub proof fn lemma_parse_num_round(n: u64, rest: Seq<char>)
    ensures
        parse_num(enc_num(n as nat) + rest) == Some((n, rest)),
{
    lemma_dec_of(n as nat);
    let ds = dec_of(n as nat);
    let s = enc_num(n as nat) + rest;
    assert(s.len() == ds.len() + 1 + rest.len());
    assert forall|j: int| 0 <= j < ds.len() implies is_digit(#[trigger] s[j]) by {
        assert(s[j] == ds[j]);
    }
    assert(s[ds.len() as int] == ':');
    assert(!is_digit(':'));
    lemma_first_nondigit_scan(s, ds.len() as int);
    assert(s.take(ds.len() as int) =~= ds);
    assert(s.skip(ds.len() as int + 1) =~= rest);
}

/// Reading a string field back from what `enc_str` wrote yields the string
/// and the untouched remainder.
pub proof fn lemma_parse_str_round(t: Seq<char>, rest: Seq<char>)
    requires
        t.len() <= u64::MAX,
    ensures
        parse_str(enc_str(t) + rest) == Some((t, rest)),
{
    let s = enc_str(t) + rest;
    assert(s =~= enc_num(t.len()) + (t + rest));
    lemma_parse_num_round(t.len() as u64, t + rest);
    assert((t + rest).take(t.len() as int) =~= t);
    assert((t + rest).skip(t.len() as int) =~= rest);
}

/// One decimal digit, `0` to `9`.
fn digit_of(c: char) -> (r: Option<u64>)
    ensures
        match r {
            Some(v) => is_digit(c) && v == digit_val(c) && v <= 9,
            None => !is_digit(c),
        },
{
    let v = c as u32;
    if 48 <= v && v <= 57 {
        Some((v - 48) as u64)
    } else {
        None
    }
}

/// Append the decimal digits of `n`.
pub fn push_dec(out: &mut String, n: u64)
    ensures
        final(out)@ == old(out)@ + dec_of(n as nat),
    decreases n,
{
    if n < 10 {
        push_char(out, (48u8 + n as u8) as char);
        proof {
            assert(out@ =~= old(out)@ + dec_of(n as nat));
        }
    } else {
        push_dec(out, n / 10);
        push_char(out, (48u8 + (n % 10) as u8) as char);
        proof {
            assert(out@ =~= old(out)@ + dec_of(n as nat));
        }
    }
}

/// Append a number field.
pub fn push_num(out: &mut String, n: u64)
    ensures
        final(out)@ == old(out)@ + enc_num(n as nat),
{
    push_dec(out, n);
    push_char(out, ':');
    proof {
        assert(out@ =~= old(out)@ + enc_num(n as nat));
    }
}

/// Append a string field.
pub fn push_field(out: &mut String, s: &str)
    ensures
        final(out)@ == old(out)@ + enc_str(s@),
{
    let n = s.unicode_len();
    push_num(out, n as u64);
    out.append(s);
    proof {
        assert(out@ =~= old(out)@ + enc_str(s@));
    }
}

/// Read a number field at position `pos`.
pub fn parse_num_at(s: &str, pos: usize) -> (r: Option<(u64, usize)>)
    requires
        pos <= s@.len(),
    ensures
        match r {
            Some(v) => pos < v.1 <= s@.len() && parse_num(s@.skip(pos as int)) == Some(
                (v.0, s@.skip(v.1 as int)),
            ),
            None => parse_num(s@.skip(pos as int)) is None,
        },
{
    let n = s.unicode_len();
    let ghost sk = s@.skip(pos as int);
    let mut i: usize = pos;
    let mut acc: u64 = 0;
    let mut over: bool = false;
    while i < n && digit_of(s.get_char(i)).is_some()
        invariant
            pos <= i <= n == s@.len(),
            forall|j: int| pos <= j < i ==> is_digit(#[trigger] s@[j]),
            !over ==> acc == digits_val(s@.subrange(pos as int, i as int)),
            over ==> digits_val(s@.subrange(pos as int, i as int)) > u64::MAX,
        decreases n - i,
    {
        let d = digit_of(s.get_char(i)).unwrap();
        let ghost pre = s@.subrange(pos as int, i as int);
        proof {
            assert(s@.subrange(pos as int, i + 1) =~= pre.push(s@[i as int]));
            assert(s@.subrange(pos as int, i + 1).drop_last() =~= pre);
            assert forall|j: int| 0 <= j < pre.len() implies is_digit(#[trigger] pre[j]) by {
                assert(pre[j] == s@[pos + j]);
            }
            lemma_digits_val_bounds(pre);
        }
        if !over {
            if acc <= (u64::MAX - d) / 10 {
                proof {
                    vstd::arithmetic::div_mod::lemma_fundamental_div_mod(
                        (u64::MAX - d) as int,
                        10,
                    );
                }
                acc = acc * 10 + d;
            } else {
                proof {
                    vstd::arithmetic::div_mod::lemma_fundamental_div_mod(
                        (u64::MAX - d) as int,
                        10,
                    );
                    assert(digits_val(s@.subrange(pos as int, i + 1)) > u64::MAX);
                }
                over = true;
            }
        } else {
            proof {
                assert(digits_val(pre) * 10 >= digits_val(pre)) by {
                    assert(digits_val(pre) >= 0);
                }
            }
        }
        i = i + 1;
    }
    proof {
        assert forall|j: int| 0 <= j < i - pos implies is_digit(#[trigger] sk[j]) by {
            assert(sk[j] == s@[pos + j]);
        }
        if i < n {
            assert(sk[i - pos] == s@[i as int]);
        }
        lemma_first_nondigit_scan(sk, i - pos as int);
        assert(sk.take(i - pos as int) =~= s@.subrange(pos as int, i as int));
    }
    if i == pos {
        return None;
    }
    if i == n {
        return None;
    }
    if s.get_char(i) != ':' {
        return None;
    }
    if over {
        return None;
    }
    proof {
        assert(sk[i - pos as int] == s@[i as int]);
        assert(sk.skip(i - pos + 1) =~= s@.skip(i + 1));
    }
    Some((acc, i + 1))
}

/// Read a string field at position `pos`.
pub fn parse_str_at(s: &str, pos: usize) -> (r: Option<(String, usize)>)
    requires
        pos <= s@.len(),
    ensures
        match r {
            Some(v) => pos < v.1 <= s@.len() && parse_str(s@.skip(pos as int)) == Some(
                (v.0@, s@.skip(v.1 as int)),
            ),
            None => parse_str(s@.skip(pos as int)) is None,
        },
{
    match parse_num_at(s, pos) {
        None => None,
        Some((v, np)) => {
            let n = s.unicode_len();
            let rem = (n - np) as u64;
            if v > rem {
                proof {
                    assert(s@.skip(np as int).len() < v);
                }
                None
            } else {
                let end = np + (v as usize);
                let t = s.substring_char(np, end).to_owned();
                proof {
                    assert(s@.skip(np as int).take(v as int) =~= s@.subrange(
                        np as int,
                        end as int,
                    ));
                    assert(s@.skip(np as int).skip(v as int) =~= s@.skip(end as int));
                }
                Some((t, end))
            }
        },
    }
}

} // verus!
