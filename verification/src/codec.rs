//! The on-disk session format and its verified encoder and parser.
//!
//! A session configuration is persisted as one JSON object with a single
//! `pets` array; each element carries the label string, the two integer
//! logical coordinates, and the visibility flag:
//!
//! `{"pets":[{"label":"frog-main","x":200,"y":200,"visible":true},...]}`
//!
//! The encoder emits exactly this shape, with no extra whitespace; the
//! parser accepts exactly what the encoder can emit, and anything else is
//! malformed.  Loading malformed content falls back to the empty
//! configuration and never fails.

use vstd::arithmetic::div_mod::lemma_fundamental_div_mod;
use vstd::prelude::*;

use crate::state::{PetV, SessionConfig, PetWindowState};
use crate::state::{spec_config_wf, spec_pet_wf, spec_valid_label, spec_valid_label_byte};

verus! {

// ---------------------------------------------------------------------------
// Fixed byte sequences of the format.
// ---------------------------------------------------------------------------

/// `{"pets":[`
pub open spec fn lit_config_open() -> Seq<u8> {
    seq![123u8, 34u8, 112u8, 101u8, 116u8, 115u8, 34u8, 58u8, 91u8]
}

/// `]}`
pub open spec fn lit_config_close() -> Seq<u8> {
    seq![93u8, 125u8]
}

/// `{"label":"`
pub open spec fn lit_pet_open() -> Seq<u8> {
    seq![123u8, 34u8, 108u8, 97u8, 98u8, 101u8, 108u8, 34u8, 58u8, 34u8]
}

/// `","x":`
pub open spec fn lit_x_key() -> Seq<u8> {
    seq![34u8, 44u8, 34u8, 120u8, 34u8, 58u8]
}

/// `,"y":`
pub open spec fn lit_y_key() -> Seq<u8> {
    seq![44u8, 34u8, 121u8, 34u8, 58u8]
}

/// `,"visible":`
pub open spec fn lit_visible_key() -> Seq<u8> {
    seq![44u8, 34u8, 118u8, 105u8, 115u8, 105u8, 98u8, 108u8, 101u8, 34u8, 58u8]
}

/// `true`
pub open spec fn lit_true() -> Seq<u8> {
    seq![116u8, 114u8, 117u8, 101u8]
}

/// `false`
pub open spec fn lit_false() -> Seq<u8> {
    seq![102u8, 97u8, 108u8, 115u8, 101u8]
}

// ---------------------------------------------------------------------------
// Decimal digits.
// ---------------------------------------------------------------------------

/// An ASCII decimal digit.
pub open spec fn spec_is_digit(b: u8) -> bool {
    48 <= b <= 57
}

/// The decimal digits of `n`, most significant first, without leading
/// zeros (`0` encodes as the single digit `0`).
pub open spec fn spec_digits(n: nat) -> Seq<u8>
    decreases n,
{
    if n < 10 {
        seq![(48 + n) as u8]
    } else {
        spec_digits(n / 10).push((48 + n % 10) as u8)
    }
}

/// The numeric value of a digit string.
pub open spec fn spec_digits_value(ds: Seq<u8>) -> nat
    decreases ds.len(),
{
    if ds.len() == 0 {
        0
    } else {
        (spec_digits_value(ds.drop_last()) * 10 + (ds.last() - 48)) as nat
    }
}

/// Ten to the `k`.
pub open spec fn pow10(k: nat) -> nat
    decreases k,
{
    if k == 0 {
        1
    } else {
        10 * pow10((k - 1) as nat)
    }
}

/// Every byte `spec_digits` emits is a digit, the string is never empty,
/// and its first digit is zero only for the value zero.
pub proof fn lemma_digits_shape(n: nat)
    ensures
        spec_digits(n).len() >= 1,
        forall|i: int| 0 <= i < spec_digits(n).len() ==> spec_is_digit(#[trigger] spec_digits(n)[i]),
        n > 0 ==> spec_digits(n)[0] != 48,
        n < 10 ==> spec_digits(n) == seq![(48 + n) as u8],
    decreases n,
{
    if n >= 10 {
        lemma_digits_shape(n / 10);
        lemma_fundamental_div_mod(n as int, 10);
        assert(n / 10 > 0);
        assert(spec_digits(n) == spec_digits(n / 10).push((48 + n % 10) as u8));
        assert(spec_digits(n)[0] == spec_digits(n / 10)[0]);
    }
}

/// Reading the digits of `n` back as a number gives `n`.
pub proof fn lemma_digits_value_of_digits(n: nat)
    ensures
        spec_digits_value(spec_digits(n)) == n,
    decreases n,
{
    if n < 10 {
        let ds = spec_digits(n);
        assert(ds == seq![(48 + n) as u8]);
        assert(ds.drop_last() =~= Seq::<u8>::empty());
        assert(spec_digits_value(ds.drop_last()) == 0);
        assert(ds.last() == (48 + n) as u8);
        assert(spec_digits_value(ds) == (spec_digits_value(ds.drop_last()) * 10 + (ds.last()
            - 48)) as nat);
        assert(ds.last() - 48 == n);
    } else {
        lemma_digits_value_of_digits(n / 10);
        lemma_fundamental_div_mod(n as int, 10);
        let ds = spec_digits(n);
        assert(ds == spec_digits(n / 10).push((48 + n % 10) as u8));
        assert(ds.drop_last() =~= spec_digits(n / 10));
        assert(ds.last() == (48 + n % 10) as u8);
        assert(spec_digits_value(ds) == (spec_digits_value(spec_digits(n / 10)) * 10 + ((48 + n
            % 10) as u8 - 48)) as nat);
    }
}

/// A digit string with a nonzero first digit has a value at least ten to
/// one less than its length.
pub proof fn lemma_digits_value_lower(ds: Seq<u8>)
    requires
        ds.len() >= 1,
        forall|i: int| 0 <= i < ds.len() ==> spec_is_digit(#[trigger] ds[i]),
        ds[0] != 48,
    ensures
        spec_digits_value(ds) >= pow10((ds.len() - 1) as nat),
    decreases ds.len(),
{
    if ds.len() == 1 {
        assert(spec_digits_value(ds) == (spec_digits_value(ds.drop_last()) * 10 + (ds.last()
            - 48)) as nat);
        assert(ds.last() == ds[0]);
    } else {
        assert(ds.drop_last()[0] == ds[0]);
        assert(forall|i: int|
            0 <= i < ds.drop_last().len() ==> spec_is_digit(#[trigger] ds.drop_last()[i]));
        lemma_digits_value_lower(ds.drop_last());
        assert(pow10((ds.len() - 1) as nat) == 10 * pow10((ds.len() - 2) as nat));
    }
}

/// Ten to nineteen written out, for bounds on 64-bit values.
pub proof fn lemma_pow10_19()
    ensures
        pow10(19) == 10_000_000_000_000_000_000,
        pow10(18) == 1_000_000_000_000_000_000,
{
    reveal_with_fuel(pow10, 20);
}

/// `pow10` does not shrink as the exponent grows.
pub proof fn lemma_pow10_monotone(a: nat, b: nat)
    requires
        a <= b,
    ensures
        pow10(a) <= pow10(b),
    decreases b,
{
    if a < b {
        lemma_pow10_monotone(a, (b - 1) as nat);
    }
}

// ---------------------------------------------------------------------------
// Spec-level encoder.
// ---------------------------------------------------------------------------

/// The byte encoding of a signed coordinate.
pub open spec fn spec_enc_int(x: int) -> Seq<u8> {
    if x < 0 {
        seq![45u8] + spec_digits((-x) as nat)
    } else {
        spec_digits(x as nat)
    }
}

/// The byte encoding of a visibility flag.
pub open spec fn spec_enc_bool(b: bool) -> Seq<u8> {
    if b {
        lit_true()
    } else {
        lit_false()
    }
}

/// The byte encoding of one pet record.
pub open spec fn spec_enc_pet(p: PetV) -> Seq<u8> {
    lit_pet_open() + p.label + lit_x_key() + spec_enc_int(p.x) + lit_y_key() + spec_enc_int(p.y)
        + lit_visible_key() + spec_enc_bool(p.visible) + seq![125u8]
}

/// The byte encoding of every record after the first, each preceded by a
/// comma.
pub open spec fn spec_enc_more_pets(ps: Seq<PetV>) -> Seq<u8>
    decreases ps.len(),
{
    if ps.len() == 0 {
        Seq::empty()
    } else {
        seq![44u8] + spec_enc_pet(ps[0]) + spec_enc_more_pets(ps.drop_first())
    }
}

/// The byte encoding of the record list, comma separated.
pub open spec fn spec_enc_pets(ps: Seq<PetV>) -> Seq<u8> {
    if ps.len() == 0 {
        Seq::empty()
    } else {
        spec_enc_pet(ps[0]) + spec_enc_more_pets(ps.drop_first())
    }
}

/// The byte encoding of a whole configuration.
pub open spec fn spec_enc_config(ps: Seq<PetV>) -> Seq<u8> {
    lit_config_open() + spec_enc_pets(ps) + lit_config_close()
}

// ---------------------------------------------------------------------------
// Spec-level parser.
// ---------------------------------------------------------------------------

/// The literal `lit` occurs in `s` at position `i`.
pub open spec fn spec_match_at(s: Seq<u8>, i: int, lit: Seq<u8>) -> bool {
    0 <= i && i + lit.len() <= s.len() && s.subrange(i, i + lit.len()) == lit
}

/// The end of the run of digits starting at `i`.
pub open spec fn spec_digit_end(s: Seq<u8>, i: int) -> int
    decreases s.len() - i,
{
    if i < 0 || i >= s.len() || !spec_is_digit(s[i]) {
        i
    } else {
        spec_digit_end(s, i + 1)
    }
}

/// The end of the run of label bytes starting at `i`.
pub open spec fn spec_label_end(s: Seq<u8>, i: int) -> int
    decreases s.len() - i,
{
    if i < 0 || i >= s.len() || !spec_valid_label_byte(s[i]) {
        i
    } else {
        spec_label_end(s, i + 1)
    }
}

/// Parses an unsigned decimal at `i`: at least one digit, no leading zero.
/// Returns the value and the position after the digits.
pub open spec fn spec_parse_uint(s: Seq<u8>, i: int) -> Option<(nat, int)> {
    let j = spec_digit_end(s, i);
    if j == i {
        None
    } else if s[i] == 48 && j > i + 1 {
        None
    } else {
        Some((spec_digits_value(s.subrange(i, j)), j))
    }
}

/// Parses a signed decimal coordinate at `i`, rejecting values outside the
/// 64-bit signed range and the non-canonical `-0`.
pub open spec fn spec_parse_int(s: Seq<u8>, i: int) -> Option<(int, int)> {
    if 0 <= i && i < s.len() && s[i] == 45 {
        match spec_parse_uint(s, i + 1) {
            Some((v, j)) => if 1 <= v <= 0x8000_0000_0000_0000 {
                Some((-(v as int), j))
            } else {
                None
            },
            None => None,
        }
    } else {
        match spec_parse_uint(s, i) {
            Some((v, j)) => if v <= 0x7fff_ffff_ffff_ffff {
                Some((v as int, j))
            } else {
                None
            },
            None => None,
        }
    }
}

/// Parses `true` or `false` at `i`.
pub open spec fn spec_parse_bool(s: Seq<u8>, i: int) -> Option<(bool, int)> {
    if spec_match_at(s, i, lit_true()) {
        Some((true, i + 4))
    } else if spec_match_at(s, i, lit_false()) {
        Some((false, i + 5))
    } else {
        None
    }
}

/// Parses one pet record at `i`.
pub open spec fn spec_parse_pet(s: Seq<u8>, i: int) -> Option<(PetV, int)> {
    if !spec_match_at(s, i, lit_pet_open()) {
        None
    } else {
        let i1 = i + 10;
        let i2 = spec_label_end(s, i1);
        let label = s.subrange(i1, i2);
        if !spec_match_at(s, i2, lit_x_key()) {
            None
        } else {
            match spec_parse_int(s, i2 + 6) {
                None => None,
                Some((x, i4)) => if !spec_match_at(s, i4, lit_y_key()) {
                    None
                } else {
                    match spec_parse_int(s, i4 + 5) {
                        None => None,
                        Some((y, i6)) => if !spec_match_at(s, i6, lit_visible_key()) {
                            None
                        } else {
                            match spec_parse_bool(s, i6 + 11) {
                                None => None,
                                Some((visible, i8)) => if spec_match_at(s, i8, seq![125u8]) {
                                    Some((PetV { label, x, y, visible }, i8 + 1))
                                } else {
                                    None
                                },
                            }
                        },
                    }
                },
            }
        }
    }
}

/// Parses the records after the first: as long as a comma follows, another
/// record must follow it.
pub open spec fn spec_parse_more_pets(s: Seq<u8>, i: int) -> Option<(Seq<PetV>, int)>
    decreases s.len() - i,
{
    if 0 <= i && i < s.len() && s[i] == 44 {
        match spec_parse_pet(s, i + 1) {
            None => None,
            Some((p, j)) => if i < j && j <= s.len() {
                match spec_parse_more_pets(s, j) {
                    None => None,
                    Some((ps, k)) => Some((seq![p] + ps, k)),
                }
            } else {
                None
            },
        }
    } else {
        Some((Seq::empty(), i))
    }
}

/// Parses the record list at `i`: empty, or one record and then
/// comma-separated further records.
pub open spec fn spec_parse_pets(s: Seq<u8>, i: int) -> Option<(Seq<PetV>, int)> {
    if 0 <= i && i < s.len() && s[i] == 123 {
        match spec_parse_pet(s, i) {
            None => None,
            Some((p, j)) => match spec_parse_more_pets(s, j) {
                None => None,
                Some((ps, k)) => Some((seq![p] + ps, k)),
            },
        }
    } else {
        Some((Seq::empty(), i))
    }
}

/// Parses a whole configuration: the fixed frame around the record list,
/// with nothing after it.
pub open spec fn spec_parse_config(s: Seq<u8>) -> Option<Seq<PetV>> {
    if !spec_match_at(s, 0, lit_config_open()) {
        None
    } else {
        match spec_parse_pets(s, 9) {
            None => None,
            Some((ps, j)) => if spec_match_at(s, j, lit_config_close()) && j + 2 == s.len() {
                Some(ps)
            } else {
                None
            },
        }
    }
}

// ---------------------------------------------------------------------------
// Encoder.
// ---------------------------------------------------------------------------

/// Appending one record to the list appends one comma-prefixed record to
/// the tail encoding.
pub proof fn lemma_enc_more_pets_snoc(ps: Seq<PetV>, p: PetV)
    ensures
        spec_enc_more_pets(ps.push(p)) == spec_enc_more_pets(ps) + seq![44u8] + spec_enc_pet(p),
    decreases ps.len(),
{
    if ps.len() == 0 {
        assert(ps.push(p)[0] == p);
        assert(ps.push(p).drop_first() =~= Seq::<PetV>::empty());
        assert(spec_enc_more_pets(Seq::<PetV>::empty()) == Seq::<u8>::empty());
        assert(spec_enc_more_pets(ps.push(p)) == seq![44u8] + spec_enc_pet(p)
            + spec_enc_more_pets(ps.push(p).drop_first()));
        assert(spec_enc_more_pets(ps) == Seq::<u8>::empty());
        assert(spec_enc_more_pets(ps.push(p)) =~= spec_enc_more_pets(ps) + seq![44u8]
            + spec_enc_pet(p));
    } else {
        let rest = ps.drop_first();
        assert(ps.push(p).drop_first() =~= rest.push(p));
        assert(ps.push(p)[0] == ps[0]);
        lemma_enc_more_pets_snoc(rest, p);
        assert(spec_enc_more_pets(ps.push(p)) == seq![44u8] + spec_enc_pet(ps[0])
            + spec_enc_more_pets(rest.push(p)));
        assert(spec_enc_more_pets(ps) == seq![44u8] + spec_enc_pet(ps[0])
            + spec_enc_more_pets(rest));
        assert(spec_enc_more_pets(ps.push(p)) =~= spec_enc_more_pets(ps) + seq![44u8]
            + spec_enc_pet(p));
    }
}

/// Appending one record to the list appends its encoding, preceded by a
/// comma unless it is the first record.
pub proof fn lemma_enc_pets_snoc(ps: Seq<PetV>, p: PetV)
    ensures
        ps.len() == 0 ==> spec_enc_pets(ps.push(p)) == spec_enc_pet(p),
        ps.len() > 0 ==> spec_enc_pets(ps.push(p)) == spec_enc_pets(ps) + seq![44u8]
            + spec_enc_pet(p),
{
    if ps.len() == 0 {
        assert(ps.push(p)[0] == p);
        assert(ps.push(p).drop_first() =~= Seq::<PetV>::empty());
        assert(spec_enc_pets(ps.push(p)) =~= spec_enc_pet(p));
    } else {
        assert(ps.push(p)[0] == ps[0]);
        assert(ps.push(p).drop_first() =~= ps.drop_first().push(p));
        lemma_enc_more_pets_snoc(ps.drop_first(), p);
        assert(spec_enc_pets(ps.push(p)) =~= spec_enc_pets(ps) + seq![44u8] + spec_enc_pet(p));
    }
}

/// Appends the decimal digits of `n` to `out`.
fn push_digits(out: &mut Vec<u8>, n: u64)
    ensures
        final(out)@ == old(out)@ + spec_digits(n as nat),
    decreases n,
{
    if n < 10 {
        out.push(48 + n as u8);
        assert(out@ =~= old(out)@ + spec_digits(n as nat));
    } else {
        push_digits(out, n / 10);
        out.push(48 + (n % 10) as u8);
        assert(out@ =~= old(out)@ + spec_digits(n as nat));
    }
}

/// Appends the decimal encoding of the signed coordinate `x` to `out`.
fn push_int(out: &mut Vec<u8>, x: i64)
    ensures
        final(out)@ == old(out)@ + spec_enc_int(x as int),
{
    if x < 0 {
        out.push(45);
        let magnitude: u64 = if x == i64::MIN {
            0x8000_0000_0000_0000u64
        } else {
            (-x) as u64
        };
        assert(magnitude as nat == (-(x as int)) as nat);
        push_digits(out, magnitude);
        assert(out@ =~= old(out)@ + spec_enc_int(x as int));
    } else {
        push_digits(out, x as u64);
    }
}

/// Appends the fixed literal `lit_pet_open` to `out`.
fn push_pet_open(out: &mut Vec<u8>)
    ensures
        final(out)@ == old(out)@ + lit_pet_open(),
{
    out.push(123);
    out.push(34);
    out.push(108);
    out.push(97);
    out.push(98);
    out.push(101);
    out.push(108);
    out.push(34);
    out.push(58);
    out.push(34);
    assert(out@ =~= old(out)@ + lit_pet_open());
}

/// Appends the fixed literal `lit_x_key` to `out`.
fn push_x_key(out: &mut Vec<u8>)
    ensures
        final(out)@ == old(out)@ + lit_x_key(),
{
    out.push(34);
    out.push(44);
    out.push(34);
    out.push(120);
    out.push(34);
    out.push(58);
    assert(out@ =~= old(out)@ + lit_x_key());
}

/// Appends the fixed literal `lit_y_key` to `out`.
fn push_y_key(out: &mut Vec<u8>)
    ensures
        final(out)@ == old(out)@ + lit_y_key(),
{
    out.push(44);
    out.push(34);
    out.push(121);
    out.push(34);
    out.push(58);
    assert(out@ =~= old(out)@ + lit_y_key());
}

/// Appends the fixed literal `lit_visible_key` to `out`.
fn push_visible_key(out: &mut Vec<u8>)
    ensures
        final(out)@ == old(out)@ + lit_visible_key(),
{
    out.push(44);
    out.push(34);
    out.push(118);
    out.push(105);
    out.push(115);
    out.push(105);
    out.push(98);
    out.push(108);
    out.push(101);
    out.push(34);
    out.push(58);
    assert(out@ =~= old(out)@ + lit_visible_key());
}

/// Appends `true` or `false` to `out`.
fn push_bool(out: &mut Vec<u8>, b: bool)
    ensures
        final(out)@ == old(out)@ + spec_enc_bool(b),
{
    if b {
        out.push(116);
        out.push(114);
        out.push(117);
        out.push(101);
        assert(out@ =~= old(out)@ + spec_enc_bool(b));
    } else {
        out.push(102);
        out.push(97);
        out.push(108);
        out.push(115);
        out.push(101);
        assert(out@ =~= old(out)@ + spec_enc_bool(b));
    }
}

/// Appends the label bytes themselves to `out`.
fn push_label(out: &mut Vec<u8>, label: &Vec<u8>)
    ensures
        final(out)@ == old(out)@ + label@,
{
    let mut k: usize = 0;
    while k < label.len()
        invariant
            k <= label.len(),
            out@ == old(out)@ + label@.take(k as int),
        decreases label.len() - k,
    {
        out.push(label[k]);
        assert(label@.take(k + 1 as int) =~= label@.take(k as int).push(label@[k as int]));
        assert(out@ =~= old(out)@ + label@.take(k + 1 as int));
        k += 1;
    }
    assert(label@.take(label@.len() as int) =~= label@);
}

/// Appends the encoding of one record to `out`.
#[verifier::rlimit(50)]
fn push_pet(out: &mut Vec<u8>, pet: &PetWindowState)
    ensures
        final(out)@ == old(out)@ + spec_enc_pet(pet@),
{
    push_pet_open(out);
    push_label(out, &pet.label);
    assert(out@ == old(out)@ + lit_pet_open() + pet.label@);
    push_x_key(out);
    push_int(out, pet.x);
    assert(out@ == old(out)@ + lit_pet_open() + pet.label@ + lit_x_key() + spec_enc_int(
        pet.x as int));
    push_y_key(out);
    push_int(out, pet.y);
    assert(out@ == old(out)@ + lit_pet_open() + pet.label@ + lit_x_key() + spec_enc_int(
        pet.x as int) + lit_y_key() + spec_enc_int(pet.y as int));
    push_visible_key(out);
    push_bool(out, pet.visible);
    out.push(125);
    assert(out@ =~= old(out)@ + spec_enc_pet(pet@));
}

/// Serializes a configuration to the bytes to be written to disk.
pub fn save(config: &SessionConfig) -> (out: Vec<u8>)
    ensures
        out@ == spec_enc_config(config@),
{
    let mut out: Vec<u8> = Vec::new();
    out.push(123);
    out.push(34);
    out.push(112);
    out.push(101);
    out.push(116);
    out.push(115);
    out.push(34);
    out.push(58);
    out.push(91);
    assert(out@ =~= lit_config_open());
    assert(config@.take(0) =~= Seq::<PetV>::empty());
    let mut k: usize = 0;
    while k < config.pets.len()
        invariant
            k <= config.pets.len(),
            config@.len() == config.pets.len(),
            out@ == lit_config_open() + spec_enc_pets(config@.take(k as int)),
        decreases config.pets.len() - k,
    {
        if k > 0 {
            out.push(44);
            assert(out@ =~= lit_config_open() + spec_enc_pets(config@.take(k as int))
                + seq![44u8]);
        }
        push_pet(&mut out, &config.pets[k]);
        proof {
            let taken = config@.take(k as int);
            let p = config@[k as int];
            assert(config@.take(k + 1 as int) =~= taken.push(p));
            lemma_enc_pets_snoc(taken, p);
            if k == 0 {
                assert(out@ =~= lit_config_open() + spec_enc_pets(config@.take(k + 1 as int)));
            } else {
                assert(out@ =~= lit_config_open() + spec_enc_pets(config@.take(k + 1 as int)));
            }
        }
        k += 1;
    }
    assert(config@.take(config@.len() as int) =~= config@);
    out.push(93);
    out.push(125);
    assert(out@ =~= spec_enc_config(config@));
    out
}


// ---------------------------------------------------------------------------
// Parser.
// ---------------------------------------------------------------------------

/// Builds the executable form of `lit_config_open`.
fn mk_lit_config_open() -> (v: Vec<u8>)
    ensures
        v@ == lit_config_open(),
{
    let mut v: Vec<u8> = Vec::new();
    v.push(123);
    v.push(34);
    v.push(112);
    v.push(101);
    v.push(116);
    v.push(115);
    v.push(34);
    v.push(58);
    v.push(91);
    assert(v@ =~= lit_config_open());
    v
}

/// Builds the executable form of `lit_config_close`.
fn mk_lit_config_close() -> (v: Vec<u8>)
    ensures
        v@ == lit_config_close(),
{
    let mut v: Vec<u8> = Vec::new();
    v.push(93);
    v.push(125);
    assert(v@ =~= lit_config_close());
    v
}

/// Builds the executable form of `lit_pet_open`.
fn mk_lit_pet_open() -> (v: Vec<u8>)
    ensures
        v@ == lit_pet_open(),
{
    let mut v: Vec<u8> = Vec::new();
    v.push(123);
    v.push(34);
    v.push(108);
    v.push(97);
    v.push(98);
    v.push(101);
    v.push(108);
    v.push(34);
    v.push(58);
    v.push(34);
    assert(v@ =~= lit_pet_open());
    v
}

/// Builds the executable form of `lit_x_key`.
fn mk_lit_x_key() -> (v: Vec<u8>)
    ensures
        v@ == lit_x_key(),
{
    let mut v: Vec<u8> = Vec::new();
    v.push(34);
    v.push(44);
    v.push(34);
    v.push(120);
    v.push(34);
    v.push(58);
    assert(v@ =~= lit_x_key());
    v
}

/// Builds the executable form of `lit_y_key`.
fn mk_lit_y_key() -> (v: Vec<u8>)
    ensures
        v@ == lit_y_key(),
{
    let mut v: Vec<u8> = Vec::new();
    v.push(44);
    v.push(34);
    v.push(121);
    v.push(34);
    v.push(58);
    assert(v@ =~= lit_y_key());
    v
}

/// Builds the executable form of `lit_visible_key`.
fn mk_lit_visible_key() -> (v: Vec<u8>)
    ensures
        v@ == lit_visible_key(),
{
    let mut v: Vec<u8> = Vec::new();
    v.push(44);
    v.push(34);
    v.push(118);
    v.push(105);
    v.push(115);
    v.push(105);
    v.push(98);
    v.push(108);
    v.push(101);
    v.push(34);
    v.push(58);
    assert(v@ =~= lit_visible_key());
    v
}

/// Builds the executable form of `lit_true`.
fn mk_lit_true() -> (v: Vec<u8>)
    ensures
        v@ == lit_true(),
{
    let mut v: Vec<u8> = Vec::new();
    v.push(116);
    v.push(114);
    v.push(117);
    v.push(101);
    assert(v@ =~= lit_true());
    v
}

/// Builds the executable form of `lit_false`.
fn mk_lit_false() -> (v: Vec<u8>)
    ensures
        v@ == lit_false(),
{
    let mut v: Vec<u8> = Vec::new();
    v.push(102);
    v.push(97);
    v.push(108);
    v.push(115);
    v.push(101);
    assert(v@ =~= lit_false());
    v
}

/// Whether `lit` occurs in `s` at position `i`.
fn match_at(s: &Vec<u8>, i: usize, lit: &Vec<u8>) -> (r: bool)
    ensures
        r == spec_match_at(s@, i as int, lit@),
{
    let slen: usize = s.len();
    if i > slen || lit.len() > slen - i {
        return false;
    }
    let mut k: usize = 0;
    while k < lit.len()
        invariant
            slen == s@.len(),
            i + lit@.len() <= s@.len(),
            k <= lit@.len(),
            forall|t: int| 0 <= t < k ==> s@[i + t] == lit@[t],
        decreases lit.len() - k,
    {
        if s[i + k] != lit[k] {
            proof {
                if spec_match_at(s@, i as int, lit@) {
                    assert(s@.subrange(i as int, i + lit@.len())[k as int] == lit@[k as int]);
                    assert(s@[i + k] == lit@[k as int]);
                }
            }
            return false;
        }
        k += 1;
    }
    proof {
        assert(s@.subrange(i as int, i + lit@.len()) =~= lit@);
    }
    true
}

/// Scans to the end of the digit run starting at `i`.
fn digit_end(s: &Vec<u8>, i: usize) -> (j: usize)
    requires
        i <= s@.len(),
    ensures
        i <= j <= s@.len(),
        j == spec_digit_end(s@, i as int),
        forall|t: int| i <= t < j ==> spec_is_digit(#[trigger] s@[t]),
        j < s@.len() ==> !spec_is_digit(s@[j as int]),
{
    let mut j: usize = i;
    while j < s.len() && 48 <= s[j] && s[j] <= 57
        invariant
            i <= j <= s@.len(),
            spec_digit_end(s@, i as int) == spec_digit_end(s@, j as int),
            forall|t: int| i <= t < j ==> spec_is_digit(#[trigger] s@[t]),
        decreases s@.len() - j,
    {
        proof {
            assert(spec_digit_end(s@, j as int) == spec_digit_end(s@, j + 1));
        }
        j += 1;
    }
    proof {
        assert(spec_digit_end(s@, j as int) == j);
    }
    j
}

/// Scans to the end of the run of label bytes starting at `i`.
fn label_end(s: &Vec<u8>, i: usize) -> (j: usize)
    requires
        i <= s@.len(),
    ensures
        i <= j <= s@.len(),
        j == spec_label_end(s@, i as int),
        forall|t: int| i <= t < j ==> spec_valid_label_byte(#[trigger] s@[t]),
        j < s@.len() ==> !spec_valid_label_byte(s@[j as int]),
{
    let mut j: usize = i;
    while j < s.len() && 0x20 <= s[j] && s[j] <= 0x7e && s[j] != 0x22 && s[j] != 0x5c
        invariant
            i <= j <= s@.len(),
            spec_label_end(s@, i as int) == spec_label_end(s@, j as int),
            forall|t: int| i <= t < j ==> spec_valid_label_byte(#[trigger] s@[t]),
        decreases s@.len() - j,
    {
        proof {
            assert(spec_label_end(s@, j as int) == spec_label_end(s@, j + 1));
        }
        j += 1;
    }
    proof {
        assert(spec_label_end(s@, j as int) == j);
    }
    j
}

/// Copies `s[a..b]` into a fresh vector.
fn copy_range(s: &Vec<u8>, a: usize, b: usize) -> (v: Vec<u8>)
    requires
        a <= b <= s@.len(),
    ensures
        v@ == s@.subrange(a as int, b as int),
{
    let mut v: Vec<u8> = Vec::new();
    let mut k: usize = a;
    while k < b
        invariant
            a <= k <= b <= s@.len(),
            v@ == s@.subrange(a as int, k as int),
        decreases b - k,
    {
        v.push(s[k]);
        assert(v@ =~= s@.subrange(a as int, k + 1 as int));
        k += 1;
    }
    v
}

/// Parses a signed decimal coordinate at `i`.
#[verifier::rlimit(50)]
fn parse_int(s: &Vec<u8>, i: usize) -> (r: Option<(i64, usize)>)
    requires
        i <= s@.len(),
    ensures
        match r {
            Some(v) => spec_parse_int(s@, i as int) == Some((v.0 as int, v.1 as int)) && i < v.1
                <= s@.len(),
            None => spec_parse_int(s@, i as int) is None,
        },
{
    let neg = i < s.len() && s[i] == 45;
    let start = if neg { i + 1 } else { i };
    let dend = digit_end(s, start);
    if dend == start {
        return None;
    }
    if s[start] == 48 && dend > start + 1 {
        return None;
    }
    let ghost run = s@.subrange(start as int, dend as int);
    proof {
        assert(forall|t: int| 0 <= t < run.len() ==> spec_is_digit(#[trigger] run[t]));
        assert(run[0] == s@[start as int]);
        lemma_pow10_19();
    }
    if dend - start >= 20 {
        proof {
            assert(run[0] != 48);
            lemma_digits_value_lower(run);
            lemma_pow10_monotone(19, (run.len() - 1) as nat);
            assert(spec_digits_value(run) >= pow10(19));
        }
        return None;
    }
    let mut acc: u64 = 0;
    let mut k: usize = start;
    while k < dend
        invariant
            start <= k <= dend <= s@.len(),
            dend - start <= 19,
            forall|t: int| start <= t < dend ==> spec_is_digit(#[trigger] s@[t]),
            acc == spec_digits_value(s@.subrange(start as int, k as int)),
            acc < pow10((k - start) as nat),
            pow10(18) == 1_000_000_000_000_000_000,
            pow10(19) == 10_000_000_000_000_000_000,
        decreases dend - k,
    {
        proof {
            lemma_pow10_monotone((k - start) as nat, 18);
            assert(pow10(((k + 1) - start) as nat) == 10 * pow10((k - start) as nat));
            let sub1 = s@.subrange(start as int, k + 1 as int);
            assert(sub1.drop_last() =~= s@.subrange(start as int, k as int));
            assert(sub1.last() == s@[k as int]);
        }
        acc = acc * 10 + (s[k] - 48) as u64;
        k += 1;
    }
    proof {
        assert(s@.subrange(start as int, k as int) == run);
    }
    if neg {
        if acc == 0 {
            return None;
        }
        if acc > 0x8000_0000_0000_0000u64 {
            return None;
        }
        let x: i64 = if acc == 0x8000_0000_0000_0000u64 {
            i64::MIN
        } else {
            -(acc as i64)
        };
        assert(x as int == -(acc as int));
        Some((x, dend))
    } else {
        if acc > 0x7fff_ffff_ffff_ffffu64 {
            return None;
        }
        Some((acc as i64, dend))
    }
}

/// Parses `true` or `false` at `i`.
fn parse_bool(s: &Vec<u8>, i: usize) -> (r: Option<(bool, usize)>)
    requires
        i <= s@.len(),
    ensures
        match r {
            Some(v) => spec_parse_bool(s@, i as int) == Some((v.0, v.1 as int)) && i < v.1
                <= s@.len(),
            None => spec_parse_bool(s@, i as int) is None,
        },
{
    let slen: usize = s.len();
    let t = mk_lit_true();
    if match_at(s, i, &t) {
        proof {
            assert(i + lit_true().len() <= s@.len());
        }
        return Some((true, i + 4));
    }
    let f = mk_lit_false();
    if match_at(s, i, &f) {
        proof {
            assert(i + lit_false().len() <= s@.len());
        }
        return Some((false, i + 5));
    }
    None
}

/// Parses one pet record at `i`.
#[verifier::rlimit(50)]
fn parse_pet(s: &Vec<u8>, i: usize) -> (r: Option<(PetWindowState, usize)>)
    requires
        i <= s@.len(),
    ensures
        match r {
            Some(v) => spec_parse_pet(s@, i as int) == Some((v.0@, v.1 as int)) && i < v.1
                <= s@.len(),
            None => spec_parse_pet(s@, i as int) is None,
        },
{
    let slen: usize = s.len();
    let pet_open = mk_lit_pet_open();
    if !match_at(s, i, &pet_open) {
        return None;
    }
    proof {
        assert(i + lit_pet_open().len() <= s@.len());
    }
    let i1 = i + 10;
    let i2 = label_end(s, i1);
    let label = copy_range(s, i1, i2);
    let x_key = mk_lit_x_key();
    if !match_at(s, i2, &x_key) {
        return None;
    }
    proof {
        assert(i2 + lit_x_key().len() <= s@.len());
    }
    let x_res = parse_int(s, i2 + 6);
    match x_res {
        None => None,
        Some((x, i4)) => {
            let y_key = mk_lit_y_key();
            if !match_at(s, i4, &y_key) {
                return None;
            }
            proof {
                assert(i4 + lit_y_key().len() <= s@.len());
            }
            let y_res = parse_int(s, i4 + 5);
            match y_res {
                None => None,
                Some((y, i6)) => {
                    let visible_key = mk_lit_visible_key();
                    if !match_at(s, i6, &visible_key) {
                        return None;
                    }
                    proof {
                        assert(i6 + lit_visible_key().len() <= s@.len());
                    }
                    let b_res = parse_bool(s, i6 + 11);
                    match b_res {
                        None => None,
                        Some((visible, i8)) => {
                            if i8 < s.len() && s[i8] == 125 {
                                proof {
                                    assert(s@.subrange(i8 as int, i8 + 1) =~= seq![125u8]);
                                }
                                let pet = PetWindowState::new(label, x, y, visible);
                                Some((pet, i8 + 1))
                            } else {
                                proof {
                                    if spec_match_at(s@, i8 as int, seq![125u8]) {
                                        assert(s@.subrange(i8 as int, i8 + 1)[0] == s@[
                                            i8 as int]);
                                    }
                                }
                                None
                            }
                        },
                    }
                },
            }
        },
    }
}

/// Parses a whole configuration from the bytes of the session file.
#[verifier::rlimit(50)]
pub fn parse_session_config(s: &Vec<u8>) -> (r: Option<SessionConfig>)
    ensures
        match r {
            Some(config) => spec_parse_config(s@) == Some(config@),
            None => spec_parse_config(s@) is None,
        },
{
    let config_open = mk_lit_config_open();
    if !match_at(s, 0, &config_open) {
        return None;
    }
    let mut pets: Vec<PetWindowState> = Vec::new();
    let mut pos: usize = 9;
    if pos < s.len() && s[pos] == 123 {
        let first = parse_pet(s, pos);
        match first {
            None => {
                return None;
            },
            Some((p, j)) => {
                pets.push(p);
                pos = j;
            },
        }
        proof {
            assert(pets@.map_values(|p: PetWindowState| p@) =~= seq![pets@[0]@]);
        }
        while pos < s.len() && s[pos] == 44
            invariant
                9 <= pos <= s@.len(),
                pets@.len() >= 1,
                spec_parse_pets(s@, 9) == (match spec_parse_more_pets(s@, pos as int) {
                    Some(rest) => Some(
                        (pets@.map_values(|p: PetWindowState| p@) + rest.0, rest.1),
                    ),
                    None => None::<(Seq<PetV>, int)>,
                }),
            decreases s@.len() - pos,
        {
            let nxt = parse_pet(s, pos + 1);
            match nxt {
                None => {
                    return None;
                },
                Some((p, j)) => {
                    proof {
                        let old_views = pets@.map_values(|q: PetWindowState| q@);
                        match spec_parse_more_pets(s@, j as int) {
                            Some(rest2) => {
                                assert((old_views + (seq![p@] + rest2.0)) =~= (old_views.push(
                                    p@) + rest2.0));
                            },
                            None => {},
                        }
                        assert(pets@.push(p).map_values(|q: PetWindowState| q@) =~= pets@
                            .map_values(|q: PetWindowState| q@).push(p@));
                    }
                    pets.push(p);
                    pos = j;
                },
            }
        }
        proof {
            assert(spec_parse_more_pets(s@, pos as int) == Some(
                (Seq::<PetV>::empty(), pos as int),
            ));
            assert(pets@.map_values(|p: PetWindowState| p@) + Seq::<PetV>::empty() =~= pets@
                .map_values(|p: PetWindowState| p@));
        }
    } else {
        proof {
            assert(pets@.map_values(|p: PetWindowState| p@) =~= Seq::<PetV>::empty());
        }
    }
    let config_close = mk_lit_config_close();
    if match_at(s, pos, &config_close) && pos + 2 == s.len() {
        let config = SessionConfig { pets };
        Some(config)
    } else {
        None
    }
}

/// What loading the given file content yields: the parsed configuration,
/// or the empty one when the content is malformed.
pub open spec fn spec_load(s: Seq<u8>) -> Seq<PetV> {
    match spec_parse_config(s) {
        Some(ps) => ps,
        None => Seq::empty(),
    }
}

/// Deserializes the session file content.  Malformed content of any kind
/// yields the empty configuration; this function never fails.
pub fn load(content: &Vec<u8>) -> (config: SessionConfig)
    ensures
        config@ == spec_load(content@),
        spec_parse_config(content@) is None ==> config@ == Seq::<PetV>::empty(),
{
    let parsed = parse_session_config(content);
    match parsed {
        Some(config) => config,
        None => SessionConfig::empty(),
    }
}


// ---------------------------------------------------------------------------
// Round trip: parsing what the encoder emitted gives the records back.
// ---------------------------------------------------------------------------

/// A window into a matched region: the bytes of `s` at `i + a .. i + b`
/// are the bytes of `e` at `a .. b`.
proof fn lemma_subrange_chunk(s: Seq<u8>, i: int, e: Seq<u8>, a: int, b: int)
    requires
        0 <= i,
        i + e.len() <= s.len(),
        s.subrange(i, i + e.len()) == e,
        0 <= a <= b <= e.len(),
    ensures
        s.subrange(i + a, i + b) == e.subrange(a, b),
{
    assert forall|k: int| 0 <= k < b - a implies s.subrange(i + a, i + b)[k] == e.subrange(a, b)[k] by {
        assert(s.subrange(i, i + e.len())[a + k] == e[a + k]);
    }
    assert(s.subrange(i + a, i + b) =~= e.subrange(a, b));
}

/// A digit run placed in context ends exactly where the run ends.
proof fn lemma_digit_end_of_digits(s: Seq<u8>, i: int, ds: Seq<u8>)
    requires
        0 <= i,
        i + ds.len() <= s.len(),
        s.subrange(i, i + ds.len()) == ds,
        forall|k: int| 0 <= k < ds.len() ==> spec_is_digit(#[trigger] ds[k]),
        i + ds.len() == s.len() || !spec_is_digit(s[i + ds.len()]),
    ensures
        spec_digit_end(s, i) == i + ds.len(),
    decreases ds.len(),
{
    if ds.len() == 0 {
    } else {
        assert(s.subrange(i, i + ds.len())[0] == s[i]);
        assert(s[i] == ds[0]);
        let rest = ds.drop_first();
        assert forall|k: int| 0 <= k < rest.len() implies s.subrange(i + 1, i + 1 + rest.len())[k]
            == rest[k] by {
            assert(s.subrange(i, i + ds.len())[k + 1] == ds[k + 1]);
        }
        assert(s.subrange(i + 1, i + 1 + rest.len()) =~= rest);
        lemma_digit_end_of_digits(s, i + 1, rest);
    }
}

/// A label run placed in context ends exactly where the run ends.
proof fn lemma_label_end_of_label(s: Seq<u8>, i: int, l: Seq<u8>)
    requires
        0 <= i,
        i + l.len() <= s.len(),
        s.subrange(i, i + l.len()) == l,
        forall|k: int| 0 <= k < l.len() ==> spec_valid_label_byte(#[trigger] l[k]),
        i + l.len() == s.len() || !spec_valid_label_byte(s[i + l.len()]),
    ensures
        spec_label_end(s, i) == i + l.len(),
    decreases l.len(),
{
    if l.len() == 0 {
    } else {
        assert(s.subrange(i, i + l.len())[0] == s[i]);
        assert(s[i] == l[0]);
        let rest = l.drop_first();
        assert forall|k: int| 0 <= k < rest.len() implies s.subrange(i + 1, i + 1 + rest.len())[k]
            == rest[k] by {
            assert(s.subrange(i, i + l.len())[k + 1] == l[k + 1]);
        }
        assert(s.subrange(i + 1, i + 1 + rest.len()) =~= rest);
        lemma_label_end_of_label(s, i + 1, rest);
    }
}

/// An unsigned decimal placed in context parses back to its value.
proof fn lemma_parse_uint_enc(s: Seq<u8>, i: int, n: nat)
    requires
        0 <= i,
        i + spec_digits(n).len() <= s.len(),
        s.subrange(i, i + spec_digits(n).len()) == spec_digits(n),
        i + spec_digits(n).len() == s.len() || !spec_is_digit(s[i + spec_digits(n).len()]),
    ensures
        spec_parse_uint(s, i) == Some((n, i + spec_digits(n).len())),
{
    let ds = spec_digits(n);
    lemma_digits_shape(n);
    lemma_digit_end_of_digits(s, i, ds);
    lemma_digits_value_of_digits(n);
    assert(s.subrange(i, i + ds.len())[0] == s[i]);
    assert(s[i] == ds[0]);
    if n == 0 {
        assert(ds.len() == 1);
    } else {
        assert(ds[0] != 48);
    }
}

/// A signed decimal coordinate placed in context parses back to its value.
proof fn lemma_parse_int_enc(s: Seq<u8>, i: int, x: int)
    requires
        i64::MIN <= x <= i64::MAX,
        0 <= i,
        i + spec_enc_int(x).len() <= s.len(),
        s.subrange(i, i + spec_enc_int(x).len()) == spec_enc_int(x),
        i + spec_enc_int(x).len() == s.len() || !spec_is_digit(s[i + spec_enc_int(x).len()]),
    ensures
        spec_parse_int(s, i) == Some((x, i + spec_enc_int(x).len())),
{
    let e = spec_enc_int(x);
    if x < 0 {
        let m = (-x) as nat;
        let ds = spec_digits(m);
        assert(e == seq![45u8] + ds);
        assert(s.subrange(i, i + e.len())[0] == s[i]);
        assert(s[i] == 45);
        assert forall|k: int| 0 <= k < ds.len() implies s.subrange(i + 1, i + 1 + ds.len())[k]
            == ds[k] by {
            assert(s.subrange(i, i + e.len())[k + 1] == e[k + 1]);
            assert(e[k + 1] == ds[k]);
        }
        assert(s.subrange(i + 1, i + 1 + ds.len()) =~= ds);
        lemma_parse_uint_enc(s, i + 1, m);
        assert(1 <= m <= 0x8000_0000_0000_0000);
    } else {
        assert(e == spec_digits(x as nat));
        lemma_parse_uint_enc(s, i, x as nat);
        lemma_digits_shape(x as nat);
        assert(s.subrange(i, i + e.len())[0] == s[i]);
        assert(spec_is_digit(s[i]));
        assert(s[i] != 45);
        assert(x <= 0x7fff_ffff_ffff_ffff);
    }
}

/// A boolean literal placed in context parses back to its value.
proof fn lemma_parse_bool_enc(s: Seq<u8>, i: int, b: bool)
    requires
        0 <= i,
        i + spec_enc_bool(b).len() <= s.len(),
        s.subrange(i, i + spec_enc_bool(b).len()) == spec_enc_bool(b),
    ensures
        spec_parse_bool(s, i) == Some((b, i + spec_enc_bool(b).len())),
{
    if b {
        assert(spec_match_at(s, i, lit_true()));
    } else {
        assert(s.subrange(i, i + 5)[0] == s[i]);
        assert(s[i] == 102);
        if spec_match_at(s, i, lit_true()) {
            assert(s.subrange(i, i + 4)[0] == s[i]);
            assert(false);
        }
        assert(spec_match_at(s, i, lit_false()));
    }
}

/// One encoded record placed in context parses back to the record.
#[verifier::rlimit(100)]
proof fn lemma_parse_pet_enc(s: Seq<u8>, i: int, p: PetV)
    requires
        spec_pet_wf(p),
        0 <= i,
        i + spec_enc_pet(p).len() <= s.len(),
        s.subrange(i, i + spec_enc_pet(p).len()) == spec_enc_pet(p),
    ensures
        spec_parse_pet(s, i) == Some((p, i + spec_enc_pet(p).len())),
{
    let e = spec_enc_pet(p);
    let ll = p.label.len() as int;
    let xl = spec_enc_int(p.x).len() as int;
    let yl = spec_enc_int(p.y).len() as int;
    let bl = spec_enc_bool(p.visible).len() as int;
    let o2 = 10 + ll;
    let o3 = o2 + 6;
    let o4 = o3 + xl;
    let o5 = o4 + 5;
    let o6 = o5 + yl;
    let o7 = o6 + 11;
    let o8 = o7 + bl;
    let o9 = o8 + 1;
    assert(e.len() == o9);
    assert(e.subrange(0, 10) =~= lit_pet_open());
    assert(e.subrange(10, o2) =~= p.label);
    assert(e.subrange(o2, o3) =~= lit_x_key());
    assert(e.subrange(o3, o4) =~= spec_enc_int(p.x));
    assert(e.subrange(o4, o5) =~= lit_y_key());
    assert(e.subrange(o5, o6) =~= spec_enc_int(p.y));
    assert(e.subrange(o6, o7) =~= lit_visible_key());
    assert(e.subrange(o7, o8) =~= spec_enc_bool(p.visible));
    assert(e.subrange(o8, o9) =~= seq![125u8]);
    lemma_subrange_chunk(s, i, e, 0, 10);
    lemma_subrange_chunk(s, i, e, 10, o2);
    lemma_subrange_chunk(s, i, e, o2, o3);
    lemma_subrange_chunk(s, i, e, o3, o4);
    lemma_subrange_chunk(s, i, e, o4, o5);
    lemma_subrange_chunk(s, i, e, o5, o6);
    lemma_subrange_chunk(s, i, e, o6, o7);
    lemma_subrange_chunk(s, i, e, o7, o8);
    lemma_subrange_chunk(s, i, e, o8, o9);
    assert(spec_match_at(s, i, lit_pet_open()));
    assert(spec_match_at(s, i + o2, lit_x_key()));
    assert(spec_match_at(s, i + o4, lit_y_key()));
    assert(spec_match_at(s, i + o6, lit_visible_key()));
    assert(spec_match_at(s, i + o8, seq![125u8]));
    // The label run stops at the quote that begins the x key.
    assert(s.subrange(i + o2, i + o3)[0] == s[i + o2]);
    assert(s[i + o2] == 34);
    lemma_label_end_of_label(s, i + 10, p.label);
    assert(spec_label_end(s, i + 10) == i + o2);
    assert(s.subrange(i + 10, i + o2) == p.label);
    // The x digits stop at the comma that begins the y key.
    assert(s.subrange(i + o4, i + o5)[0] == s[i + o4]);
    assert(s[i + o4] == 44);
    assert(!spec_is_digit(s[i + o4]));
    lemma_parse_int_enc(s, i + o3, p.x);
    // The y digits stop at the comma that begins the visible key.
    assert(s.subrange(i + o6, i + o7)[0] == s[i + o6]);
    assert(s[i + o6] == 44);
    assert(!spec_is_digit(s[i + o6]));
    lemma_parse_int_enc(s, i + o5, p.y);
    lemma_parse_bool_enc(s, i + o7, p.visible);
    assert(spec_parse_pet(s, i) == Some(
        (PetV { label: s.subrange(i + 10, i + o2), x: p.x, y: p.y, visible: p.visible }, i + o9),
    ));
    assert(PetV { label: s.subrange(i + 10, i + o2), x: p.x, y: p.y, visible: p.visible } == p);
}

/// Encoded trailing records placed in context, followed by the closing
/// bracket, parse back to the records.
proof fn lemma_parse_more_pets_enc(s: Seq<u8>, i: int, ps: Seq<PetV>)
    requires
        spec_config_wf(ps),
        0 <= i,
        i + spec_enc_more_pets(ps).len() < s.len(),
        s.subrange(i, i + spec_enc_more_pets(ps).len()) == spec_enc_more_pets(ps),
        s[i + spec_enc_more_pets(ps).len()] == 93,
    ensures
        spec_parse_more_pets(s, i) == Some((ps, i + spec_enc_more_pets(ps).len())),
    decreases ps.len(),
{
    let e = spec_enc_more_pets(ps);
    if ps.len() == 0 {
        assert(e.len() == 0);
        assert(s[i] == 93);
    } else {
        let p = ps[0];
        let rest = ps.drop_first();
        let pe = spec_enc_pet(p);
        let re = spec_enc_more_pets(rest);
        assert(e == seq![44u8] + pe + re);
        assert(s.subrange(i, i + e.len())[0] == s[i]);
        assert(s[i] == 44);
        let pl = pe.len() as int;
        assert(e.subrange(1, 1 + pl) =~= pe);
        assert(e.subrange(1 + pl, e.len() as int) =~= re);
        lemma_subrange_chunk(s, i, e, 1, 1 + pl);
        lemma_subrange_chunk(s, i, e, 1 + pl, e.len() as int);
        assert(spec_pet_wf(p));
        lemma_parse_pet_enc(s, i + 1, p);
        let j = i + 1 + pl;
        assert(forall|k: int| 0 <= k < rest.len() ==> rest[k] == ps[k + 1]);
        assert(spec_config_wf(rest));
        lemma_parse_more_pets_enc(s, j, rest);
        assert(spec_parse_more_pets(s, i) == Some((seq![p] + rest, i + e.len())));
        assert(seq![p] + rest =~= ps);
    }
}

/// The encoded record list placed in context, followed by the closing
/// bracket, parses back to the records.
proof fn lemma_parse_pets_enc(s: Seq<u8>, i: int, ps: Seq<PetV>)
    requires
        spec_config_wf(ps),
        0 <= i,
        i + spec_enc_pets(ps).len() < s.len(),
        s.subrange(i, i + spec_enc_pets(ps).len()) == spec_enc_pets(ps),
        s[i + spec_enc_pets(ps).len()] == 93,
    ensures
        spec_parse_pets(s, i) == Some((ps, i + spec_enc_pets(ps).len())),
{
    let e = spec_enc_pets(ps);
    if ps.len() == 0 {
        assert(e.len() == 0);
        assert(s[i] == 93);
    } else {
        let p = ps[0];
        let rest = ps.drop_first();
        let pe = spec_enc_pet(p);
        let re = spec_enc_more_pets(rest);
        assert(e == pe + re);
        assert(pe.len() >= 1);
        assert(pe[0] == 123);
        assert(s.subrange(i, i + e.len())[0] == s[i]);
        assert(e[0] == pe[0]);
        assert(s[i] == 123);
        let pl = pe.len() as int;
        assert(e.subrange(0, pl) =~= pe);
        assert(e.subrange(pl, e.len() as int) =~= re);
        lemma_subrange_chunk(s, i, e, 0, pl);
        lemma_subrange_chunk(s, i, e, pl, e.len() as int);
        assert(spec_pet_wf(p));
        lemma_parse_pet_enc(s, i, p);
        let j = i + pl;
        assert(forall|k: int| 0 <= k < rest.len() ==> rest[k] == ps[k + 1]);
        assert(spec_config_wf(rest));
        lemma_parse_more_pets_enc(s, j, rest);
        assert(spec_parse_pets(s, i) == Some((seq![p] + rest, i + e.len())));
        assert(seq![p] + rest =~= ps);
    }
}

/// Round trip: parsing the encoding of any well-formed configuration gives
/// exactly the same records back.  Saving and then loading a configuration
/// therefore preserves every label, position and visibility flag.
pub proof fn lemma_config_round_trip(ps: Seq<PetV>)
    requires
        spec_config_wf(ps),
    ensures
        spec_parse_config(spec_enc_config(ps)) == Some(ps),
{
    let s = spec_enc_config(ps);
    let pe = spec_enc_pets(ps);
    let pl = pe.len() as int;
    assert(s == lit_config_open() + pe + lit_config_close());
    assert(s.len() == 9 + pl + 2);
    assert(s.subrange(0, s.len() as int) =~= s);
    assert(s.subrange(0, 9) =~= lit_config_open());
    assert(s.subrange(9, 9 + pl) =~= pe);
    assert(s.subrange(9 + pl, s.len() as int) =~= lit_config_close());
    assert(spec_match_at(s, 0, lit_config_open()));
    assert(s.subrange(9 + pl, s.len() as int)[0] == s[9 + pl]);
    assert(s[9 + pl] == 93);
    lemma_parse_pets_enc(s, 9, ps);
    assert(spec_match_at(s, 9 + pl, lit_config_close()));
}

/// Saving a well-formed configuration and loading the result yields an
/// equal configuration.
pub proof fn lemma_save_load_round_trip(ps: Seq<PetV>)
    requires
        spec_config_wf(ps),
    ensures
        spec_load(spec_enc_config(ps)) == ps,
{
    lemma_config_round_trip(ps);
}

// ---------------------------------------------------------------------------
// Whatever parses is well formed.
// ---------------------------------------------------------------------------

/// Every byte of the run accepted by `spec_label_end` is a valid label
/// byte.
proof fn lemma_label_end_run(s: Seq<u8>, i: int)
    requires
        0 <= i <= s.len(),
    ensures
        i <= spec_label_end(s, i) <= s.len(),
        forall|t: int| i <= t < spec_label_end(s, i) ==> spec_valid_label_byte(#[trigger] s[t]),
    decreases s.len() - i,
{
    if i < s.len() && spec_valid_label_byte(s[i]) {
        lemma_label_end_run(s, i + 1);
    }
}

/// The digit run's end lies between its start and the end of the input.
proof fn lemma_digit_end_bounds(s: Seq<u8>, i: int)
    requires
        0 <= i <= s.len(),
    ensures
        i <= spec_digit_end(s, i) <= s.len(),
    decreases s.len() - i,
{
    if i < s.len() && spec_is_digit(s[i]) {
        lemma_digit_end_bounds(s, i + 1);
    }
}

/// A parsed coordinate fits the 64-bit signed range, and parsing advances.
proof fn lemma_parse_int_wf(s: Seq<u8>, i: int)
    requires
        0 <= i <= s.len(),
    ensures
        match spec_parse_int(s, i) {
            Some(v) => i64::MIN <= v.0 <= i64::MAX && i < v.1 <= s.len(),
            None => true,
        },
{
    lemma_digit_end_bounds(s, i);
    if i < s.len() {
        lemma_digit_end_bounds(s, i + 1);
    }
}

/// A parsed record is well formed, and parsing advances.
proof fn lemma_parse_pet_wf(s: Seq<u8>, i: int)
    ensures
        match spec_parse_pet(s, i) {
            Some(v) => spec_pet_wf(v.0) && i < v.1 <= s.len(),
            None => true,
        },
{
    if let Some((p, j)) = spec_parse_pet(s, i) {
        assert(spec_match_at(s, i, lit_pet_open()));
        assert(0 <= i && i + 10 <= s.len());
        lemma_label_end_run(s, i + 10);
        let i2 = spec_label_end(s, i + 10);
        assert(p.label == s.subrange(i + 10, i2));
        assert forall|t: int| 0 <= t < p.label.len() implies spec_valid_label_byte(
            #[trigger] p.label[t],
        ) by {
            assert(p.label[t] == s[i + 10 + t]);
        }
        assert(spec_valid_label(p.label));
        assert(spec_match_at(s, i2, lit_x_key()));
        assert(i2 + 6 <= s.len());
        lemma_parse_int_wf(s, i2 + 6);
        let (x, i4) = spec_parse_int(s, i2 + 6).unwrap();
        assert(spec_match_at(s, i4, lit_y_key()));
        lemma_parse_int_wf(s, i4 + 5);
        let (y, i6) = spec_parse_int(s, i4 + 5).unwrap();
        assert(spec_match_at(s, i6, lit_visible_key()));
        let (visible, i8) = spec_parse_bool(s, i6 + 11).unwrap();
        assert(i8 == i6 + 11 + 4 || i8 == i6 + 11 + 5);
        assert(spec_match_at(s, i8, seq![125u8]));
        assert(j == i8 + 1 && j <= s.len());
        assert(spec_pet_wf(p));
    }
}

/// A parsed trailing record list is well formed, and parsing advances.
proof fn lemma_parse_more_pets_wf(s: Seq<u8>, i: int)
    ensures
        match spec_parse_more_pets(s, i) {
            Some(v) => spec_config_wf(v.0) && i <= v.1 <= s.len() || !(0 <= i <= s.len()),
            None => true,
        },
    decreases s.len() - i,
{
    if 0 <= i && i < s.len() && s[i] == 44 {
        lemma_parse_pet_wf(s, i + 1);
        if let Some((p, j)) = spec_parse_pet(s, i + 1) {
            if i < j && j <= s.len() {
                lemma_parse_more_pets_wf(s, j);
            }
        }
    }
}

/// Everything a successful parse of a whole configuration returns is well
/// formed: labels hold only valid bytes and coordinates fit the machine
/// representation.
pub proof fn lemma_parse_config_wf(s: Seq<u8>)
    ensures
        match spec_parse_config(s) {
            Some(ps) => spec_config_wf(ps),
            None => true,
        },
{
    if spec_match_at(s, 0, lit_config_open()) {
        if 9 < s.len() && s[9] == 123 {
            lemma_parse_pet_wf(s, 9);
            if let Some((p, j)) = spec_parse_pet(s, 9) {
                lemma_parse_more_pets_wf(s, j);
            }
        }
    }
}

/// Loading any content at all yields a well-formed configuration.
pub proof fn lemma_load_wf(s: Seq<u8>)
    ensures
        spec_config_wf(spec_load(s)),
{
    lemma_parse_config_wf(s);
}

} // verus!
