//! Byte sequences written as text: a comma-separated list of decimal
//! integers, optionally wrapped in square brackets, such as `[1, 2, 3]`.

use vstd::prelude::*;
use vstd::string::StrSliceExecFns;
use vstd::string::StringExecFns;

verus! {

/// A square bracket, taken off both ends of the whole list.
pub open spec fn is_bracket(c: char) -> bool {
    c == '[' || c == ']'
}

/// Unicode white space, as `char::is_whitespace` decides it.
pub open spec fn is_space(c: char) -> bool {
    c == ' ' || ('\t' <= c && c <= '\r') || c == '\u{85}' || c == '\u{a0}' || c == '\u{1680}' || (
    '\u{2000}' <= c && c <= '\u{200a}') || c == '\u{2028}' || c == '\u{2029}' || c == '\u{202f}'
        || c == '\u{205f}' || c == '\u{3000}'
}

/// The characters taken off the ends: brackets, or else white space.
pub open spec fn is_trim_char(c: char, brackets: bool) -> bool {
    if brackets {
        is_bracket(c)
    } else {
        is_space(c)
    }
}

/// `s` with every leading and every trailing trim character taken off.
pub open spec fn strip_ends(s: Seq<char>, brackets: bool) -> Seq<char>
    decreases s.len(),
{
    if s.len() > 0 && is_trim_char(s[0], brackets) {
        strip_ends(s.drop_first(), brackets)
    } else if s.len() > 0 && is_trim_char(s.last(), brackets) {
        strip_ends(s.drop_last(), brackets)
    } else {
        s
    }
}

/// The pieces of `s` between commas, in order; `s` without a comma is one piece.
pub open spec fn split_commas(s: Seq<char>) -> Seq<Seq<char>>
    decreases s.len(),
{
    if s.len() == 0 {
        seq![Seq::empty()]
    } else {
        let prev = split_commas(s.drop_last());
        if s.last() == ',' {
            prev.push(Seq::empty())
        } else {
            prev.update(prev.len() - 1, prev.last().push(s.last()))
        }
    }
}

/// The tokens of a byte list: the pieces between commas, brackets taken off
/// the whole text first.
pub open spec fn list_tokens(s: Seq<char>) -> Seq<Seq<char>> {
    split_commas(strip_ends(s, true))
}

/// Nothing but brackets and white space.
pub open spec fn is_blank_list(s: Seq<char>) -> bool {
    strip_ends(strip_ends(s, true), false).len() == 0
}

pub open spec fn is_digit(c: char) -> bool {
    '0' <= c && c <= '9'
}

/// The value of a run of decimal digits, most significant first.
pub open spec fn digits_value(d: Seq<char>) -> nat
    decreases d.len(),
{
    if d.len() == 0 {
        0
    } else {
        digits_value(d.drop_last()) * 10 + ((d.last() as u32) - 48) as nat
    }
}

/// The digits of a number: an optional leading `+` taken off.
pub open spec fn unsigned_digits(t: Seq<char>) -> Seq<char> {
    if t.len() > 0 && t[0] == '+' {
        t.drop_first()
    } else {
        t
    }
}

/// The byte that a (trimmed) token denotes, as `u8::from_str` reads it:
/// an optional `+` and at least one decimal digit, of value at most 255.
pub open spec fn byte_of(t: Seq<char>) -> Option<u8> {
    let d = unsigned_digits(t);
    if d.len() > 0 && (forall|i: int| 0 <= i < d.len() ==> is_digit(#[trigger] d[i]))
        && digits_value(d) <= 255 {
        Some(digits_value(d) as u8)
    } else {
        None
    }
}

/// The byte of the token at `i`, white space around it ignored.
pub open spec fn token_byte(s: Seq<char>, i: int) -> Option<u8> {
    byte_of(strip_ends(list_tokens(s)[i], false))
}

/// The decimal digit for `k`, below ten.
pub open spec fn digit_char(k: nat) -> char {
    if k == 0 { '0' } else if k == 1 { '1' } else if k == 2 { '2' } else if k == 3 { '3' }
    else if k == 4 { '4' } else if k == 5 { '5' } else if k == 6 { '6' } else if k == 7 { '7' }
    else if k == 8 { '8' } else { '9' }
}

/// The decimal text of `n`, without leading zeros.
pub open spec fn decimal_of(n: nat) -> Seq<char>
    decreases n,
{
    if n < 10 {
        seq![digit_char(n)]
    } else {
        decimal_of(n / 10).push(digit_char(n % 10))
    }
}

/// The bytes written as a list: `b0, b1, ..., bn`, a comma and a space
/// between neighbours.
pub open spec fn list_body(bs: Seq<u8>) -> Seq<char>
    decreases bs.len(),
{
    if bs.len() <= 1 {
        if bs.len() == 0 { Seq::empty() } else { decimal_of(bs[0] as nat) }
    } else {
        list_body(bs.drop_last()) + seq![',', ' '] + decimal_of(bs.last() as nat)
    }
}

/// The bytes written as a bracketed list: `[b0, b1, ..., bn]`.
pub open spec fn bracketed_list(bs: Seq<u8>) -> Seq<char> {
    seq!['['] + list_body(bs) + seq![']']
}

proof fn lemma_decimal(n: nat)
    ensures
        decimal_of(n).len() > 0,
        forall|i: int| 0 <= i < decimal_of(n).len() ==> is_digit(#[trigger] decimal_of(n)[i]),
        digits_value(decimal_of(n)) == n,
    decreases n,
{
    let c = digit_char(n % 10);
    assert(is_digit(c) && (c as u32) - 48 == n % 10);
    if n < 10 {
        assert(decimal_of(n).drop_last() =~= Seq::<char>::empty());
        assert(decimal_of(n).last() == c);
        assert(digits_value(Seq::<char>::empty()) == 0);
        assert(n % 10 == n);
        assert(digits_value(decimal_of(n)) == 0 * 10 + ((c as u32) - 48) as nat);
    } else {
        lemma_decimal(n / 10);
        let d = decimal_of(n);
        assert(d.drop_last() =~= decimal_of(n / 10));
        vstd::arithmetic::div_mod::lemma_fundamental_div_mod(n as int, 10);
        assert(d.last() == c);
        assert(digits_value(d) == digits_value(decimal_of(n / 10)) * 10 + ((c as u32) - 48) as nat);
        assert(digits_value(d) == (n / 10) * 10 + n % 10);
        assert forall|i: int| 0 <= i < d.len() implies is_digit(#[trigger] d[i]) by {
            if i < d.len() - 1 {
                assert(d[i] == decimal_of(n / 10)[i]);
            }
        }
    }
}

proof fn lemma_byte_of_decimal(b: u8)
    ensures
        byte_of(decimal_of(b as nat)) == Some(b),
        strip_ends(decimal_of(b as nat), false) == decimal_of(b as nat),
        strip_ends(seq![' '] + decimal_of(b as nat), false) == decimal_of(b as nat),
{
    let d = decimal_of(b as nat);
    lemma_decimal(b as nat);
    assert(!is_space(d[0]));
    assert(!is_space(d.last()));
    assert(unsigned_digits(d) == d);
    let sd = seq![' '] + d;
    assert(sd.drop_first() =~= d);
}

proof fn lemma_split_no_comma(s: Seq<char>, t: Seq<char>)
    requires
        forall|i: int| 0 <= i < t.len() ==> #[trigger] t[i] != ',',
    ensures
        split_commas(s).len() >= 1,
        split_commas(s + t) == split_commas(s).update(
            split_commas(s).len() - 1,
            split_commas(s).last() + t,
        ),
    decreases t.len(),
{
    lemma_split_nonempty(s);
    let p = split_commas(s);
    if t.len() == 0 {
        assert(s + t =~= s);
        assert(p.last() + t =~= p.last());
        assert(p.update(p.len() - 1, p.last() + t) =~= p);
    } else {
        let t0 = t.drop_last();
        assert forall|i: int| 0 <= i < t0.len() implies #[trigger] t0[i] != ',' by {
            assert(t0[i] == t[i]);
        }
        lemma_split_no_comma(s, t0);
        assert((s + t).drop_last() =~= s + t0);
        assert((s + t).last() == t.last());
        let q = split_commas(s + t0);
        assert(q.last() == p.last() + t0);
        assert(q.last().push(t.last()) =~= p.last() + t);
        assert(q.update(q.len() - 1, q.last().push(t.last())) =~= p.update(
            p.len() - 1,
            p.last() + t,
        ));
    }
}

proof fn lemma_list_body(bs: Seq<u8>)
    requires
        bs.len() >= 1,
    ensures
        list_body(bs).len() > 0,
        is_digit(list_body(bs)[0]),
        is_digit(list_body(bs).last()),
        split_commas(list_body(bs)).len() == bs.len(),
        forall|i: int|
            0 <= i < bs.len() ==> strip_ends(#[trigger] split_commas(list_body(bs))[i], false)
                == decimal_of(bs[i] as nat),
    decreases bs.len(),
{
    let body = list_body(bs);
    let dec = decimal_of(bs.last() as nat);
    lemma_decimal(bs.last() as nat);
    lemma_byte_of_decimal(bs.last());
    assert(dec.last() == dec[dec.len() - 1]);
    if bs.len() == 1 {
        let e = Seq::<char>::empty();
        assert forall|i: int| 0 <= i < dec.len() implies #[trigger] dec[i] != ',' by {
            assert(is_digit(dec[i]));
        }
        lemma_split_no_comma(e, dec);
        assert(e + dec =~= dec);
        assert(split_commas(e) == seq![e]);
        assert(e + dec =~= dec);
        assert(split_commas(dec) =~= seq![dec]);
        assert(body == dec);
    } else {
        let bd = bs.drop_last();
        lemma_list_body(bd);
        let prev = list_body(bd);
        let t = seq![' '] + dec;
        assert forall|i: int| 0 <= i < t.len() implies #[trigger] t[i] != ',' by {
            if i > 0 {
                assert(t[i] == dec[i - 1]);
                assert(is_digit(dec[i - 1]));
            }
        }
        let pc = prev.push(',');
        assert(pc.drop_last() =~= prev);
        assert(split_commas(pc) == split_commas(prev).push(Seq::empty()));
        assert(body =~= pc + t);
        lemma_split_no_comma(pc, t);
        let sp = split_commas(prev);
        assert(Seq::<char>::empty() + t =~= t);
        assert(split_commas(body) =~= sp.push(t));
        assert(body[0] == prev[0]);
        assert(body.last() == dec.last());
        assert forall|i: int| 0 <= i < bs.len() implies strip_ends(
            #[trigger] split_commas(list_body(bs))[i],
            false,
        ) == decimal_of(bs[i] as nat) by {
            if i < bs.len() - 1 {
                assert(bd[i] == bs[i]);
                assert(split_commas(body)[i] == sp[i]);
            }
        }
    }
}

/// The bracketed list of any bytes is read back token by token as exactly
/// those bytes; with no bytes it is blank.
pub proof fn lemma_bracketed_list(bs: Seq<u8>)
    ensures
        bs.len() == 0 ==> is_blank_list(bracketed_list(bs)),
        bs.len() > 0 ==> !is_blank_list(bracketed_list(bs)) && list_tokens(bracketed_list(bs)).len()
            == bs.len() && forall|i: int|
            0 <= i < bs.len() ==> #[trigger] token_byte(bracketed_list(bs), i) == Some(bs[i]),
{
    let s = bracketed_list(bs);
    let body = list_body(bs);
    let rb = seq![']'];
    assert(s.drop_first() =~= body + rb);
    assert(s[0] == '[');
    assert(strip_ends(s, true) == strip_ends(body + rb, true));
    if bs.len() == 0 {
        assert(body + rb =~= rb);
        assert(rb.drop_first() =~= Seq::<char>::empty());
        assert(strip_ends(rb, true) == strip_ends(Seq::<char>::empty(), true));
        assert(strip_ends(s, true) == Seq::<char>::empty());
    } else {
        lemma_list_body(bs);
        let br = body + rb;
        assert(br[0] == body[0]);
        assert(br.drop_last() =~= body);
        assert(br.last() == ']');
        assert(strip_ends(br, true) == strip_ends(body, true));
        assert(body.last() == body[body.len() - 1]);
        assert(strip_ends(s, true) == body);
        assert(strip_ends(body, false) == body);
        assert forall|i: int| 0 <= i < bs.len() implies #[trigger] token_byte(s, i) == Some(bs[i]) by {
            lemma_byte_of_decimal(bs[i]);
        }
    }
}

/// A token of the list that is no byte.
#[derive(Debug, PartialEq, Eq)]
pub enum ByteListError {
    /// The token as written, and its place among the tokens, from 0.
    InvalidByte { token: String, position: usize },
}

impl ByteListError {
    /// A readable account of the error.
    pub fn message(&self) -> (r: String)
        ensures
            match self {
                ByteListError::InvalidByte { token, .. } => r@ == "Invalid byte '"@ + token@
                    + "'"@,
            },
    {
        match self {
            ByteListError::InvalidByte { token, .. } => {
                let m = String::from_str("Invalid byte '");
                let m = m.concat(token.as_str());
                m.concat("'")
            },
        }
    }
}

proof fn lemma_split_nonempty(s: Seq<char>)
    ensures
        split_commas(s).len() >= 1,
    decreases s.len(),
{
    if s.len() > 0 {
        lemma_split_nonempty(s.drop_last());
    }
}

fn is_trim(c: char, brackets: bool) -> (r: bool)
    ensures
        r == is_trim_char(c, brackets),
{
    if brackets {
        c == '[' || c == ']'
    } else {
        c == ' ' || ('\t' <= c && c <= '\r') || c == '\u{85}' || c == '\u{a0}' || c == '\u{1680}'
            || ('\u{2000}' <= c && c <= '\u{200a}') || c == '\u{2028}' || c == '\u{2029}' || c
            == '\u{202f}' || c == '\u{205f}' || c == '\u{3000}'
    }
}

/// The bounds of `chars[lo..hi]` with its trim characters taken off both ends.
fn trim_range(chars: &Vec<char>, lo: usize, hi: usize, brackets: bool) -> (r: (usize, usize))
    requires
        lo <= hi <= chars@.len(),
    ensures
        lo <= r.0 <= r.1 <= hi,
        chars@.subrange(r.0 as int, r.1 as int) == strip_ends(
            chars@.subrange(lo as int, hi as int),
            brackets,
        ),
{
    let ghost whole = chars@.subrange(lo as int, hi as int);
    let mut a = lo;
    while a < hi && is_trim(chars[a], brackets)
        invariant
            lo <= a <= hi <= chars@.len(),
            strip_ends(chars@.subrange(a as int, hi as int), brackets) == strip_ends(
                whole,
                brackets,
            ),
        decreases hi - a,
    {
        proof {
            let t = chars@.subrange(a as int, hi as int);
            assert(t.drop_first() =~= chars@.subrange(a + 1, hi as int));
        }
        a = a + 1;
    }
    let mut b = hi;
    while b > a && is_trim(chars[b - 1], brackets)
        invariant
            lo <= a <= b <= hi <= chars@.len(),
            a < b ==> !is_trim_char(chars@[a as int], brackets),
            strip_ends(chars@.subrange(a as int, b as int), brackets) == strip_ends(
                whole,
                brackets,
            ),
        decreases b - a,
    {
        proof {
            let t = chars@.subrange(a as int, b as int);
            assert(t.drop_last() =~= chars@.subrange(a as int, b - 1));
            assert(t[0] == chars@[a as int]);
        }
        b = b - 1;
    }
    proof {
        let t = chars@.subrange(a as int, b as int);
        if t.len() > 0 {
            assert(t[0] == chars@[a as int]);
            assert(t.last() == chars@[b - 1]);
        }
    }
    (a, b)
}

/// The byte that `chars[a..b]` denotes.
fn parse_byte_token(chars: &Vec<char>, a: usize, b: usize) -> (r: Option<u8>)
    requires
        a <= b <= chars@.len(),
    ensures
        r == byte_of(chars@.subrange(a as int, b as int)),
{
    let ghost t = chars@.subrange(a as int, b as int);
    let mut i = a;
    if i < b && chars[i] == '+' {
        i = i + 1;
    }
    proof {
        assert(unsigned_digits(t) =~= chars@.subrange(i as int, b as int));
    }
    if i == b {
        return None;
    }
    let start = i;
    let mut val: u32 = 0;
    while i < b
        invariant
            a <= start <= i <= b <= chars@.len(),
            t == chars@.subrange(a as int, b as int),
            unsigned_digits(t) == chars@.subrange(start as int, b as int),
            forall|k: int| start <= k < i ==> is_digit(#[trigger] chars@[k]),
            val as nat == if digits_value(chars@.subrange(start as int, i as int)) < 256 {
                digits_value(chars@.subrange(start as int, i as int))
            } else {
                256
            },
        decreases b - i,
    {
        let c = chars[i];
        if !('0' <= c && c <= '9') {
            proof {
                assert(unsigned_digits(t)[i - start] == c);
                assert(!is_digit(unsigned_digits(t)[i - start]));
                assert(byte_of(t) is None);
            }
            return None;
        }
        let d: u32 = (c as u32) - ('0' as u32);
        proof {
            let p = chars@.subrange(start as int, i as int);
            let q = chars@.subrange(start as int, i + 1);
            assert(q.drop_last() =~= p);
            assert(digits_value(q) == digits_value(p) * 10 + d);
            if digits_value(p) >= 256 {
                assert(digits_value(p) * 10 + d >= 256) by (nonlinear_arith)
                    requires
                        digits_value(p) >= 256,
                ;
            }
        }
        val = if val * 10 + d > 256 {
            256
        } else {
            val * 10 + d
        };
        i = i + 1;
    }
    proof {
        assert(chars@.subrange(start as int, i as int) =~= unsigned_digits(t));
    }
    if val > 255 {
        None
    } else {
        Some(val as u8)
    }
}

/// Parses a byte list such as `[1, 2, 3]` or `1, 2, 3`. Brackets are taken
/// off both ends of the text; text that is then blank gives no bytes;
/// otherwise each comma-separated token, white space around it ignored,
/// must denote a byte, and the first that does not is the error.
pub fn parse_u8_array(input: &str) -> (r: Result<Vec<u8>, ByteListError>)
    ensures
        is_blank_list(input@) ==> (r matches Ok(v) && v@.len() == 0),
        !is_blank_list(input@) ==> match r {
            Ok(v) => v@.len() == list_tokens(input@).len() && forall|i: int|
                0 <= i < v@.len() ==> token_byte(input@, i) == Some(#[trigger] v@[i]),
            Err(ByteListError::InvalidByte { token, position }) => position < list_tokens(
                input@,
            ).len() && token@ == list_tokens(input@)[position as int] && token_byte(
                input@,
                position as int,
            ) is None && forall|k: int| 0 <= k < position ==> #[trigger] token_byte(input@, k) is Some,
        },
        forall|bs: Seq<u8>| input@ == bracketed_list(bs) ==> (r matches Ok(v) && v@ == bs),
{
    proof {
        assert forall|bs: Seq<u8>| input@ == bracketed_list(bs) implies (bs.len() == 0
            ==> is_blank_list(input@)) && (bs.len() > 0 ==> !is_blank_list(input@) && list_tokens(
            input@,
        ).len() == bs.len() && forall|i: int|
            0 <= i < bs.len() ==> #[trigger] token_byte(input@, i) == Some(bs[i])) by {
            lemma_bracketed_list(bs);
        }
    }
    let n = input.unicode_len();
    let mut chars: Vec<char> = Vec::new();
    let mut i: usize = 0;
    while i < n
        invariant
            n == input@.len(),
            i <= n,
            chars@ == input@.subrange(0, i as int),
        decreases n - i,
    {
        chars.push(input.get_char(i));
        i = i + 1;
        assert(chars@ =~= input@.subrange(0, i as int));
    }
    assert(chars@ =~= input@);
    let (lo, hi) = trim_range(&chars, 0, n, true);
    proof {
        assert(chars@.subrange(0, n as int) =~= chars@);
    }
    let (ca, cb) = trim_range(&chars, lo, hi, false);
    if ca == cb {
        let empty: Vec<u8> = Vec::new();
        proof {
            assert forall|bs: Seq<u8>| input@ == bracketed_list(bs) implies empty@ == bs by {
                assert(empty@ =~= bs);
            }
        }
        return Ok(empty);
    }
    let ghost body = chars@.subrange(lo as int, hi as int);
    let mut ranges: Vec<(usize, usize)> = Vec::new();
    let mut cur = lo;
    let mut j = lo;
    proof {
        assert(chars@.subrange(lo as int, lo as int) =~= Seq::<char>::empty());
    }
    while j < hi
        invariant
            lo <= cur <= j <= hi <= chars@.len(),
            split_commas(chars@.subrange(lo as int, j as int)).len() == ranges@.len() + 1,
            forall|k: int|
                0 <= k < ranges@.len() ==> lo <= (#[trigger] ranges@[k]).0 <= ranges@[k].1 <= hi
                    && chars@.subrange(ranges@[k].0 as int, ranges@[k].1 as int) == split_commas(
                    chars@.subrange(lo as int, j as int),
                )[k],
            chars@.subrange(cur as int, j as int) == split_commas(
                chars@.subrange(lo as int, j as int),
            ).last(),
        decreases hi - j,
    {
        let ghost prev = split_commas(chars@.subrange(lo as int, j as int));
        proof {
            let q = chars@.subrange(lo as int, j + 1);
            assert(q.drop_last() =~= chars@.subrange(lo as int, j as int));
            assert(q.last() == chars@[j as int]);
            lemma_split_nonempty(chars@.subrange(lo as int, j as int));
        }
        if chars[j] == ',' {
            ranges.push((cur, j));
            cur = j + 1;
            proof {
                assert(chars@.subrange(cur as int, j + 1) =~= Seq::<char>::empty());
            }
        } else {
            proof {
                assert(chars@.subrange(cur as int, j + 1) =~= chars@.subrange(
                    cur as int,
                    j as int,
                ).push(chars@[j as int]));
            }
        }
        j = j + 1;
    }
    ranges.push((cur, hi));
    let ghost toks = split_commas(body);
    proof {
        assert(toks == list_tokens(input@));
        assert(ranges@.len() == toks.len());
        assert forall|k: int| 0 <= k < ranges@.len() implies chars@.subrange(
            (#[trigger] ranges@[k]).0 as int,
            ranges@[k].1 as int,
        ) == toks[k] by {}
        assert(strip_ends(body, false) == chars@.subrange(ca as int, cb as int));
        assert(!is_blank_list(input@));
    }
    let mut out: Vec<u8> = Vec::new();
    let mut k: usize = 0;
    while k < ranges.len()
        invariant
            chars@ == input@,
            !is_blank_list(input@),
            toks == list_tokens(input@),
            ranges@.len() == toks.len(),
            forall|m: int|
                0 <= m < ranges@.len() ==> (#[trigger] ranges@[m]).0 <= ranges@[m].1
                    <= chars@.len() && chars@.subrange(ranges@[m].0 as int, ranges@[m].1 as int)
                    == toks[m],
            k <= ranges@.len(),
            out@.len() == k,
            forall|m: int| 0 <= m < k ==> token_byte(input@, m) == Some(#[trigger] out@[m]),
        decreases ranges@.len() - k,
    {
        let (s, e) = ranges[k];
        let (a, b) = trim_range(&chars, s, e, false);
        match parse_byte_token(&chars, a, b) {
            Some(v) => {
                out.push(v);
            },
            None => {
                let token = String::from_str(input.substring_char(s, e));
                proof {
                    assert(chars@.subrange(s as int, e as int) == toks[k as int]);
                    assert(token@ == toks[k as int]);
                    assert(token_byte(input@, k as int) is None);
                    assert forall|bs: Seq<u8>| input@ == bracketed_list(bs) implies false by {
                        lemma_bracketed_list(bs);
                        if bs.len() > 0 {
                            assert(token_byte(input@, k as int) == Some(bs[k as int]));
                        }
                    }
                    assert forall|m: int| 0 <= m < k implies #[trigger] token_byte(input@, m) is Some by {
                        assert(token_byte(input@, m) == Some(out@[m]));
                    }
                }
                return Err(ByteListError::InvalidByte { token, position: k });
            },
        }
        k = k + 1;
    }
    proof {
        assert forall|bs: Seq<u8>| input@ == bracketed_list(bs) implies out@ == bs by {
            assert forall|i: int| 0 <= i < bs.len() implies out@[i] == bs[i] by {
                assert(token_byte(input@, i) == Some(out@[i]));
            }
            assert(out@ =~= bs);
        }
    }
    Ok(out)
}

} // verus!
