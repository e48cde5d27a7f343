use vstd::prelude::*;
use vstd::string::*;

verus! {

/// Relies on `String::push`: appends the given character to the end of
/// the string.
#[verifier::external_body]
pub(crate) fn push_char(s: &mut String, c: char)
    ensures
        final(s)@ == old(s)@.push(c),
{
    s.push(c);
}

/// The characters padding is drawn from: the fill string itself, or a
/// single space when the fill string is empty.
pub open spec fn spec_eff_fill(fill: Seq<char>) -> Seq<char> {
    if fill.len() == 0 {
        seq![' ']
    } else {
        fill
    }
}

/// `count` characters drawn from `fill` in order, starting over at the
/// beginning whenever the fill runs out.
pub open spec fn spec_cycle(fill: Seq<char>, count: nat) -> Seq<char> {
    Seq::new(count, |i: int| fill[i % (fill.len() as int)])
}

/// What `pad_end` returns: the string itself when it is already wide
/// enough, and otherwise the string followed by cycled fill characters
/// up to the width.
pub open spec fn spec_pad_end(u: Seq<char>, fill: Seq<char>, width: nat) -> Seq<char> {
    if width <= u.len() {
        u
    } else {
        u + spec_cycle(spec_eff_fill(fill), (width - u.len()) as nat)
    }
}

/// The left half of `pad_out`'s padding: the fill characters at even
/// positions of the cycle.
pub open spec fn spec_pad_left(eff: Seq<char>, pad: nat) -> Seq<char> {
    Seq::new((pad + 1) / 2, |j: int| eff[(2 * j) % (eff.len() as int)])
}

/// The right half of `pad_out`'s padding: the fill characters at odd
/// positions of the cycle.
pub open spec fn spec_pad_right(eff: Seq<char>, pad: nat) -> Seq<char> {
    Seq::new(pad / 2, |j: int| eff[(2 * j + 1) % (eff.len() as int)])
}

/// What `pad_out` returns: the string itself when it is already wide
/// enough, and otherwise the string centred between interleaved fill
/// characters, the left side taking the extra one when the padding is
/// odd.
pub open spec fn spec_pad_out(u: Seq<char>, fill: Seq<char>, width: nat) -> Seq<char> {
    if width <= u.len() {
        u
    } else {
        let pad = (width - u.len()) as nat;
        let eff = spec_eff_fill(fill);
        spec_pad_left(eff, pad) + u + spec_pad_right(eff, pad)
    }
}

/// The fill characters of `fill`, with a single space replacing an
/// empty fill.
fn effective_fill(fill: &str) -> (r: Vec<char>)
    ensures
        r@ == spec_eff_fill(fill@),
        r@.len() >= 1,
{
    let mut fill_chars: Vec<char> = Vec::new();
    let flen = fill.unicode_len();
    let mut i: usize = 0;
    while i < flen
        invariant
            flen == fill@.len(),
            0 <= i <= flen,
            fill_chars@ == fill@.subrange(0, i as int),
        decreases flen - i,
    {
        fill_chars.push(fill.get_char(i));
        proof {
            assert(fill_chars@ =~= fill@.subrange(0, i + 1 as int));
        }
        i = i + 1;
    }
    proof {
        assert(fill@.subrange(0, fill@.len() as int) =~= fill@);
    }
    if fill_chars.len() < 1 {
        fill_chars.push(' ');
        proof {
            assert(fill_chars@ =~= seq![' ']);
        }
    }
    fill_chars
}

/// Pad `unpadded` on the right with the fill characters, cycled, until
/// it is `width` characters wide. A string already that wide comes
/// back unchanged.
pub fn pad_end(unpadded: &str, fill: &str, width: usize) -> (r: String)
    ensures
        r@ == spec_pad_end(unpadded@, fill@, width as nat),
{
    let char_len = unpadded.unicode_len();
    if width <= char_len {
        return String::from_str(unpadded);
    }
    let fill_chars = effective_fill(fill);
    let ghost eff = spec_eff_fill(fill@);
    let flen = fill_chars.len();
    let pad = width - char_len;
    let mut result = String::from_str(unpadded);
    let mut k: usize = 0;
    while k < pad
        invariant
            fill_chars@ == eff,
            flen == fill_chars@.len(),
            flen >= 1,
            0 <= k <= pad,
            result@ == unpadded@ + spec_cycle(eff, k as nat),
        decreases pad - k,
    {
        push_char(&mut result, fill_chars[k % flen]);
        proof {
            assert(result@ =~= unpadded@ + spec_cycle(eff, (k + 1) as nat));
        }
        k = k + 1;
    }
    result
}

/// Pad `unpadded` on both sides with the fill characters, interleaved
/// left-right, until it is `width` characters wide; an odd padding
/// leaves the extra character on the left. A string already that wide
/// comes back unchanged.
pub fn pad_out(unpadded: &str, fill: &str, width: usize) -> (r: String)
    ensures
        r@ == spec_pad_out(unpadded@, fill@, width as nat),
{
    let char_len = unpadded.unicode_len();
    if width <= char_len {
        return String::from_str(unpadded);
    }
    let fill_chars = effective_fill(fill);
    let ghost eff = spec_eff_fill(fill@);
    let flen = fill_chars.len();
    let pad = width - char_len;
    let mut left = String::new();
    let mut right = String::new();
    let mut i: usize = 0;
    while i < pad
        invariant
            fill_chars@ == eff,
            flen == fill_chars@.len(),
            flen >= 1,
            0 <= i <= pad,
            left@ == spec_pad_left(eff, i as nat),
            right@ == spec_pad_right(eff, i as nat),
        decreases pad - i,
    {
        proof {
            vstd::arithmetic::div_mod::lemma_fundamental_div_mod(i as int, 2);
        }
        if i % 2 == 0 {
            push_char(&mut left, fill_chars[i % flen]);
            proof {
                assert(2 * ((i as int) / 2) == i as int);
                assert(left@ =~= spec_pad_left(eff, (i + 1) as nat));
                assert(right@ =~= spec_pad_right(eff, (i + 1) as nat));
            }
        } else {
            push_char(&mut right, fill_chars[i % flen]);
            proof {
                assert(2 * ((i as int) / 2) + 1 == i as int);
                assert(left@ =~= spec_pad_left(eff, (i + 1) as nat));
                assert(right@ =~= spec_pad_right(eff, (i + 1) as nat));
            }
        }
        i = i + 1;
    }
    let middle = left.concat(unpadded);
    let result = middle.concat(right.as_str());
    proof {
        assert(result@ =~= spec_pad_out(unpadded@, fill@, width as nat));
    }
    result
}

/// The one-character string holding `c`.
pub fn char_to_string(c: char) -> (r: String)
    ensures
        r@ == seq![c],
{
    let mut s = String::new();
    push_char(&mut s, c);
    proof {
        assert(s@ =~= seq![c]);
    }
    s
}

/// The decimal digit `d` as a character.
pub open spec fn spec_digit(d: nat) -> char {
    if d == 0 {
        '0'
    } else if d == 1 {
        '1'
    } else if d == 2 {
        '2'
    } else if d == 3 {
        '3'
    } else if d == 4 {
        '4'
    } else if d == 5 {
        '5'
    } else if d == 6 {
        '6'
    } else if d == 7 {
        '7'
    } else if d == 8 {
        '8'
    } else {
        '9'
    }
}

/// The decimal rendering of `n`, without leading zeroes.
pub open spec fn spec_dec(n: nat) -> Seq<char>
    decreases n,
{
    if n < 10 {
        seq![spec_digit(n)]
    } else {
        spec_dec(n / 10) + seq![spec_digit(n % 10)]
    }
}

/// A decimal rendering has as many characters as the number has
/// digits; numbers below a thousand take at most three.
pub proof fn lemma_dec_len(n: nat)
    ensures
        n < 10 ==> spec_dec(n).len() == 1,
        10 <= n < 100 ==> spec_dec(n).len() == 2,
        100 <= n < 1000 ==> spec_dec(n).len() == 3,
    decreases n,
{
    if n >= 10 {
        assert(1 <= n / 10 < n) by (nonlinear_arith)
            requires
                n >= 10,
        ;
        assert(n < 100 ==> n / 10 < 10) by (nonlinear_arith);
        assert(100 <= n < 1000 ==> 10 <= n / 10 < 100) by (nonlinear_arith);
        lemma_dec_len(n / 10);
    }
}

/// The two halves of `pad_out`'s padding add up to the whole: its
/// result is exactly the requested width, or the string's own length
/// when that is larger.
pub proof fn lemma_pad_out_len(u: Seq<char>, fill: Seq<char>, width: nat)
    ensures
        spec_pad_out(u, fill, width).len() == if width <= u.len() {
            u.len()
        } else {
            width
        },
{
    if width > u.len() {
        let pad = (width - u.len()) as nat;
        vstd::arithmetic::div_mod::lemma_fundamental_div_mod(pad as int, 2);
        vstd::arithmetic::div_mod::lemma_mod_bound(pad as int, 2);
        let q = (pad as int) / 2;
        let rem = (pad as int) % 2;
        if rem == 0 {
            vstd::arithmetic::div_mod::lemma_fundamental_div_mod_converse(pad as int + 1, 2, q, 1);
        } else {
            vstd::arithmetic::div_mod::lemma_fundamental_div_mod_converse(pad as int + 1, 2, q + 1, 0);
        }
        assert((pad + 1) / 2 + (pad as int) / 2 == pad);
    }
}

/// The decimal digit `d` as a character.
fn digit_char(d: u16) -> (c: char)
    requires
        d < 10,
    ensures
        c == spec_digit(d as nat),
{
    if d == 0 {
        '0'
    } else if d == 1 {
        '1'
    } else if d == 2 {
        '2'
    } else if d == 3 {
        '3'
    } else if d == 4 {
        '4'
    } else if d == 5 {
        '5'
    } else if d == 6 {
        '6'
    } else if d == 7 {
        '7'
    } else if d == 8 {
        '8'
    } else {
        '9'
    }
}

/// Render `n` in decimal, without leading zeroes.
pub fn u16_to_string(n: u16) -> (r: String)
    ensures
        r@ == spec_dec(n as nat),
    decreases n,
{
    if n < 10 {
        let mut s = String::new();
        push_char(&mut s, digit_char(n));
        proof {
            assert(s@ =~= spec_dec(n as nat));
        }
        s
    } else {
        proof {
            assert(n / 10 < n) by (nonlinear_arith)
                requires
                    n >= 10,
            ;
        }
        let mut s = u16_to_string(n / 10);
        push_char(&mut s, digit_char(n % 10));
        proof {
            assert(s@ =~= spec_dec(n as nat));
        }
        s
    }
}

} // verus!
