//! Reading and writing the configuration as a plain text record: one
//! `name=value` line per field, in a fixed order, with every value a
//! decimal integer (micro-units for fixed-point parameters, months for
//! ages, whole units for counts and bounds).
//!
//! The reader skips each label up to the separator, so the labels document
//! the file for a human; the order of the lines carries the meaning. A
//! configuration rendered and read back comes out field-for-field equal,
//! which is stated on [`parse_config`]; a missing or malformed field, or
//! one violating the validity constraints, is a load error.

use vstd::prelude::*;

use crate::config::{
    AgeAndDeath, Education, EnvironmentConfig, IncomeAndConsumption, Transaction, Wealth,
};
use crate::environment::lemma_filter_push;
use vstd::string::StringSliceAdditionalSpecFns;

verus! {

/// Why a configuration could not be loaded.
#[derive(Clone, Copy, Debug, PartialEq, Eq, Structural)]
pub enum ConfigError {
    /// The text does not follow the line format, or a value is out of the
    /// range of its field, or text trails the last field.
    Malformed,
    /// Every field parsed, but the configuration violates a validity
    /// constraint.
    Invalid,
}

/// The field separator, `=`.
pub const SEP: u8 = 61;

/// The line break.
pub const NL: u8 = 10;

/// The minus sign.
pub const MINUS: u8 = 45;

/// A byte that may stand in a field label: anything but the separator and
/// the line break.
pub open spec fn label_byte_ok(b: u8) -> bool {
    b != 61 && b != 10
}

/// The label bytes written for a name: its bytes with the separator and
/// line break filtered out.
pub open spec fn spec_label(s: &str) -> Seq<u8> {
    s.spec_bytes().filter(|b: u8| label_byte_ok(b))
}

/// A well-formed label: every byte admissible.
pub open spec fn label_ok(label: Seq<u8>) -> bool {
    forall|i: int| 0 <= i < label.len() ==> label_byte_ok(#[trigger] label[i])
}

/// Decimal digits of a natural number, most significant first.
pub open spec fn spec_digits(n: nat) -> Seq<u8>
    decreases n,
{
    if n < 10 {
        seq![(48 + n) as u8]
    } else {
        spec_digits(n / 10).push((48 + n % 10) as u8)
    }
}

/// Decimal encoding of an integer, with a leading minus for negatives.
pub open spec fn spec_dec(v: int) -> Seq<u8> {
    if v < 0 {
        seq![45u8] + spec_digits((-v) as nat)
    } else {
        spec_digits(v as nat)
    }
}

/// One rendered field: label, separator, decimal value, line break.
pub open spec fn spec_field(label: Seq<u8>, v: int) -> Seq<u8> {
    label + seq![61u8] + spec_dec(v) + seq![10u8]
}

/// An ASCII decimal digit.
pub open spec fn is_digit(b: u8) -> bool {
    48 <= b <= 57
}

/// The numeric value of a digit string, most significant first.
pub open spec fn digits_val(s: Seq<u8>) -> nat
    decreases s.len(),
{
    if s.len() == 0 {
        0
    } else {
        digits_val(s.drop_last()) * 10 + (if s.last() >= 48 {
            (s.last() - 48) as nat
        } else {
            0
        })
    }
}

/// The digit string of a number is non-empty and all digits.
proof fn lemma_digits_wf(n: nat)
    ensures
        spec_digits(n).len() >= 1,
        forall|i: int| 0 <= i < spec_digits(n).len() ==> is_digit(#[trigger] spec_digits(n)[i]),
    decreases n,
{
    if n >= 10 {
        lemma_digits_wf(n / 10);
    }
}

/// Reading the digit string of a number back gives the number.
proof fn lemma_digits_val(n: nat)
    ensures
        digits_val(spec_digits(n)) == n,
    decreases n,
{
    if n < 10 {
        assert(spec_digits(n).drop_last() =~= Seq::<u8>::empty());
        assert((48 + n) as u8 == 48 + n);
        assert(spec_digits(n).last() == (48 + n) as u8);
        assert(digits_val(spec_digits(n)) == digits_val(Seq::<u8>::empty()) * 10 + n);
    } else {
        lemma_digits_val(n / 10);
        assert(spec_digits(n).drop_last() =~= spec_digits(n / 10));
        assert((48 + n % 10) as u8 == 48 + n % 10);
        assert(spec_digits(n).last() == (48 + n % 10) as u8);
        assert(digits_val(spec_digits(n)) == digits_val(spec_digits(n / 10)) * 10 + n % 10);
    }
}

/// Every prefix of a number's digit string reads back at most the number.
proof fn lemma_digits_prefix_le(n: nat, k: int)
    requires
        0 <= k <= spec_digits(n).len(),
    ensures
        digits_val(spec_digits(n).take(k)) <= n,
    decreases n,
{
    if k == spec_digits(n).len() {
        assert(spec_digits(n).take(k) =~= spec_digits(n));
        lemma_digits_val(n);
    } else if n < 10 {
        assert(spec_digits(n).take(k) =~= Seq::<u8>::empty());
    } else {
        assert(spec_digits(n).take(k) =~= spec_digits(n / 10).take(k));
        lemma_digits_prefix_le(n / 10, k);
    }
}

/// Appends the decimal digits of `n`.
pub(crate) fn push_digits(n: u64, out: &mut Vec<u8>)
    ensures
        final(out)@ == old(out)@ + spec_digits(n as nat),
    decreases n,
{
    if n < 10 {
        out.push(48 + n as u8);
        proof {
            assert(final(out)@ =~= old(out)@ + spec_digits(n as nat));
        }
    } else {
        push_digits(n / 10, out);
        out.push(48 + (n % 10) as u8);
        proof {
            assert(final(out)@ =~= old(out)@ + spec_digits(n as nat));
        }
    }
}

/// Appends the decimal encoding of `v`.
pub(crate) fn push_dec(v: i64, out: &mut Vec<u8>)
    requires
        v > i64::MIN,
    ensures
        final(out)@ == old(out)@ + spec_dec(v as int),
{
    if v < 0 {
        out.push(MINUS);
        push_digits((-v) as u64, out);
        proof {
            assert(final(out)@ =~= old(out)@ + spec_dec(v as int));
        }
    } else {
        push_digits(v as u64, out);
    }
}

/// Appends one field line for the given label and value.
fn push_field(label: &str, v: i64, out: &mut Vec<u8>)
    requires
        v > i64::MIN,
    ensures
        final(out)@ == old(out)@ + spec_field(spec_label(label), v as int),
{
    let bytes = label.as_bytes();
    let m = bytes.len();
    let mut i: usize = 0;
    while i < m
        invariant
            0 <= i <= m,
            bytes@ == label.spec_bytes(),
            m == bytes@.len(),
            out@ == old(out)@ + bytes@.take(i as int).filter(|b: u8| label_byte_ok(b)),
        decreases m - i,
    {
        let b = bytes[i];
        proof {
            assert(bytes@.take(i + 1) =~= bytes@.take(i as int).push(b));
            lemma_filter_push(bytes@.take(i as int), b, |b: u8| label_byte_ok(b));
        }
        if b != SEP && b != NL {
            out.push(b);
        }
        i = i + 1;
    }
    proof {
        assert(bytes@.take(m as int) =~= bytes@);
    }
    out.push(SEP);
    push_dec(v, out);
    out.push(NL);
    proof {
        assert(final(out)@ =~= old(out)@ + spec_field(spec_label(label), v as int));
    }
}

/// A well-formed field for label `label` and value `v` stands at `pos`,
/// with `rest` after it.
pub open spec fn field_at(s: Seq<u8>, pos: int, label: Seq<u8>, v: int, rest: Seq<u8>) -> bool {
    &&& label_ok(label)
    &&& i64::MIN < v <= i64::MAX
    &&& 0 <= pos <= s.len()
    &&& s.skip(pos) == spec_field(label, v) + rest
}

/// The byte at a position.
fn byte_at(buf: &Vec<u8>, p: usize) -> (b: u8)
    requires
        p < buf@.len(),
    ensures
        b == buf@[p as int],
{
    buf[p]
}

/// Reads a maximal run of decimal digits starting at `pos`; the last
/// component is false when the run is empty or the value does not fit in
/// a `u64`. Whenever the input holds the digit string of some `n` at
/// `pos`, followed by the end or a non-digit, exactly that string is
/// consumed and `n` returned.
fn parse_digits(buf: &Vec<u8>, pos: usize) -> (r: (u64, usize, bool))
    requires
        pos <= buf@.len(),
    ensures
        pos <= r.1 <= buf@.len(),
        forall|n: u64|
            #[trigger] digits_at(buf@, pos as int, n as nat) ==> r == (
                n,
                (pos + spec_digits(n as nat).len()) as usize,
                true,
            ),
{
    let n_len = buf.len();
    let mut p = pos;
    let mut acc: u64 = 0;
    let mut ok = true;
    while p < n_len && is_digit_at(buf, p)
        invariant
            pos <= p <= n_len,
            n_len == buf@.len(),
            forall|i: int| pos <= i < p ==> is_digit(#[trigger] buf@[i]),
            ok ==> acc as nat == digits_val(buf@.subrange(pos as int, p as int)),
            !ok ==> forall|m: u64| !#[trigger] digits_at(buf@, pos as int, m as nat),
        decreases n_len - p,
    {
        let b = buf[p];
        let ghost consumed = buf@.subrange(pos as int, p as int);
        let ghost consumed_next = buf@.subrange(pos as int, p + 1);
        proof {
            assert(consumed_next.drop_last() =~= consumed);
        }
        if acc > u64::MAX / 10 || (acc == u64::MAX / 10 && b > 53) {
            proof {
                if ok {
                    assert forall|m: u64| !#[trigger] digits_at(
                        buf@,
                        pos as int,
                        m as nat,
                    ) by {
                        if digits_at(buf@, pos as int, m as nat) {
                            let dlen = spec_digits(m as nat).len() as int;
                            lemma_digits_wf(m as nat);
                            assert(p + 1 <= pos + dlen);
                            assert(consumed_next =~= spec_digits(m as nat).take(
                                p + 1 - pos,
                            ));
                            lemma_digits_prefix_le(m as nat, p + 1 - pos);
                            assert(digits_val(consumed_next) <= m as nat);
                            assert(digits_val(consumed_next) == acc as nat * 10 + (b
                                - 48) as nat);
                        }
                    }
                }
            }
            ok = false;
        } else if ok {
            acc = acc * 10 + ((b - 48) as u64);
        }
        p = p + 1;
    }
    proof {
        assert forall|m: u64| #[trigger] digits_at(buf@, pos as int, m as nat) implies (
            acc,
            p,
            ok,
        ) == (m, (pos + spec_digits(m as nat).len()) as usize, true) && p > pos by {
            let dlen = spec_digits(m as nat).len() as int;
            lemma_digits_wf(m as nat);
            // the scan cannot stop inside the digit string, nor pass its end
            assert(p >= pos + dlen) by {
                if p < pos + dlen {
                    assert(is_digit(spec_digits(m as nat)[p - pos]));
                    assert(buf@[p as int] == spec_digits(m as nat)[p - pos]);
                }
            }
            assert(p <= pos + dlen) by {
                if p > pos + dlen {
                    assert(!is_digit(buf@[pos + dlen]));
                    assert(is_digit(buf@[pos + dlen]));
                }
            }
            assert(ok);
            assert(buf@.subrange(pos as int, p as int) =~= spec_digits(m as nat));
            lemma_digits_val(m as nat);
        }
    }
    (acc, p, ok && p > pos)
}

/// Whether the digit string of `n` stands at `pos`, followed by the end
/// of the input or a non-digit.
pub open spec fn digits_at(s: Seq<u8>, pos: int, n: nat) -> bool {
    &&& 0 <= pos
    &&& pos + spec_digits(n).len() <= s.len()
    &&& s.subrange(pos, pos + spec_digits(n).len()) == spec_digits(n)
    &&& (pos + spec_digits(n).len() == s.len() || !is_digit(s[pos + spec_digits(n).len()]))
}

/// Whether the byte at `p` is a decimal digit.
fn is_digit_at(buf: &Vec<u8>, p: usize) -> (r: bool)
    requires
        p < buf@.len(),
    ensures
        r == is_digit(buf@[p as int]),
{
    let b = buf[p];
    48 <= b && b <= 57
}

/// The part after a known prefix of a concatenation.
proof fn lemma_skip_concat<A>(a: Seq<A>, b: Seq<A>)
    ensures
        (a + b).skip(a.len() as int) == b,
{
    assert((a + b).skip(a.len() as int) =~= b);
}

/// Skipping twice skips the sum.
proof fn lemma_skip_skip<A>(s: Seq<A>, p: int, q: int)
    requires
        0 <= p,
        0 <= q,
        p + q <= s.len(),
    ensures
        s.skip(p).skip(q) == s.skip(p + q),
{
    assert(s.skip(p).skip(q) =~= s.skip(p + q));
}

/// Reads one field line: skips the label up to the separator, then reads
/// the signed decimal value and the closing line break. The last
/// component is false when no separator is found, the number is missing,
/// malformed or out of range, or the line break is missing. Whenever a
/// well-formed field stands at `pos`, exactly that field is consumed and
/// its value returned.
fn parse_field(buf: &Vec<u8>, pos: usize) -> (r: (i64, usize, bool))
    requires
        pos <= buf@.len(),
    ensures
        pos <= r.1 <= buf@.len(),
        forall|label: Seq<u8>, v: int, rest: Seq<u8>|
            #[trigger] field_at(buf@, pos as int, label, v, rest) ==> r == (
                v as i64,
                (pos + spec_field(label, v).len()) as usize,
                true,
            ),
{
    let n_len = buf.len();
    let mut p = pos;
    while p < n_len && byte_at(buf, p) != SEP
        invariant
            pos <= p <= n_len,
            n_len == buf@.len(),
            forall|i: int| pos <= i < p ==> (#[trigger] buf@[i]) != 61,
        decreases n_len - p,
    {
        p = p + 1;
    }
    let mut value: i64 = 0;
    let mut out_pos: usize = p;
    let mut ok: bool = false;
    let ghost mut neg_taken: bool = false;
    let ghost mut digit_start: int = 0;
    if p < n_len {
        let mut q = p + 1;
        let mut neg = false;
        if q < n_len && byte_at(buf, q) == MINUS {
            neg = true;
            q = q + 1;
        }
        proof {
            neg_taken = neg;
            digit_start = q as int;
        }
        let digits = parse_digits(buf, q);
        if digits.2 {
            let mag = digits.0;
            let q2 = digits.1;
            if q2 < n_len && byte_at(buf, q2) == NL {
                if mag <= 9_223_372_036_854_775_807u64 {
                    value = if neg {
                        -(mag as i64)
                    } else {
                        mag as i64
                    };
                    out_pos = q2 + 1;
                    ok = true;
                }
            }
        }
        proof {
            assert forall|label: Seq<u8>, v: int, rest: Seq<u8>|
                #[trigger] field_at(buf@, pos as int, label, v, rest) implies (value, out_pos, ok)
                == (v as i64, (pos + spec_field(label, v).len()) as usize, true) by {
                lemma_field_position(buf@, pos as int, label, v, rest, p as int);
                lemma_field_bytes(buf@, pos as int, label, v, rest);
                let dl = spec_dec(v).len() as int;
                assert forall|i2: int| 0 <= i2 < dl implies buf@[p + 1 + i2] == #[trigger] spec_dec(
                    v,
                )[i2] by {
                    assert(buf@[pos + label.len() + 1 + i2] == spec_dec(v)[i2]);
                }
                lemma_digits_wf(if v < 0 {
                    (-v) as nat
                } else {
                    v as nat
                });
                assert(buf@[pos + label.len() + 1 + dl] == 10);
                assert(buf@[p + 1 + dl] == 10);
                if v < 0 {
                    assert(spec_dec(v)[0] == 45);
                    assert(buf@[p + 1] == 45);
                    assert(neg_taken);
                    assert(digit_start == p + 2);
                    assert forall|i2: int|
                        0 <= i2 < dl - 1 implies buf@[p + 2 + i2] == #[trigger] spec_digits(
                        (-v) as nat,
                    )[i2] by {
                        assert(buf@[p + 1 + (i2 + 1)] == spec_dec(v)[i2 + 1]);
                        assert(spec_dec(v)[i2 + 1] == spec_digits((-v) as nat)[i2]);
                    }
                    assert(buf@.subrange(p + 2, p + 1 + dl) =~= spec_digits((-v) as nat));
                    assert(digits_at(buf@, digit_start, ((-v) as u64) as nat));
                } else {
                    assert(spec_dec(v) == spec_digits(v as nat));
                    assert(buf@[p + 1] == spec_digits(v as nat)[0]);
                    assert(is_digit(spec_digits(v as nat)[0]));
                    assert(!neg_taken);
                    assert(digit_start == p + 1);
                    assert(buf@.subrange(p + 1, p + 1 + dl) =~= spec_digits(v as nat));
                    assert(digits_at(buf@, digit_start, (v as u64) as nat));
                }
            }
        }
    } else {
        proof {
            assert forall|label: Seq<u8>, v: int, rest: Seq<u8>|
                #[trigger] field_at(buf@, pos as int, label, v, rest) implies (value, out_pos, ok)
                == (v as i64, (pos + spec_field(label, v).len()) as usize, true) by {
                lemma_field_position(buf@, pos as int, label, v, rest, p as int);
            }
        }
    }
    (value, out_pos, ok)
}

/// The bytes of a well-formed field, read off position by position: the
/// decimal encoding follows the separator, and the line break closes it.
proof fn lemma_field_bytes(s: Seq<u8>, pos: int, label: Seq<u8>, v: int, rest: Seq<u8>)
    requires
        field_at(s, pos, label, v, rest),
    ensures
        forall|i: int|
            0 <= i < spec_dec(v).len() ==> s[pos + label.len() + 1 + i] == #[trigger] spec_dec(
                v,
            )[i],
        s[pos + label.len() + 1 + spec_dec(v).len()] == 10,
{
    let f = spec_field(label, v);
    let g = label + seq![61u8] + spec_dec(v);
    assert(f == g + seq![10u8]);
    assert(f.len() == label.len() + 2 + spec_dec(v).len());
    assert(s.skip(pos).len() == s.len() - pos);
    assert(forall|j: int| 0 <= j < s.len() - pos ==> s[pos + j] == #[trigger] s.skip(pos)[j]);
    assert forall|i: int|
        0 <= i < spec_dec(v).len() implies s[pos + label.len() + 1 + i] == #[trigger] spec_dec(
        v,
    )[i] by {
        let j: int = label.len() as int + 1 + i;
        assert(s[pos + j] == s.skip(pos)[j]);
        assert(s.skip(pos)[j] == (f + rest)[j]);
        assert((f + rest)[j] == f[j]);
        assert(f[j] == g[j]);
        assert(g[j] == spec_dec(v)[j - (label.len() as int + 1)]);
    }
    let j2: int = label.len() as int + 1 + spec_dec(v).len() as int;
    assert(s[pos + j2] == s.skip(pos)[j2]);
    assert(s.skip(pos)[j2] == (f + rest)[j2]);
    assert((f + rest)[j2] == f[j2]);
    assert(f[j2] == seq![10u8][0]);
}

/// The rendered lines of the top-level bounds and counts.
pub open spec fn spec_render_dims(c: EnvironmentConfig) -> Seq<u8> {
    spec_field(spec_label("num_agents"), c.num_agents as int) + (spec_field(
        spec_label("num_iterations"),
        c.num_iterations as int,
    ) + (spec_field(spec_label("length"), c.length as int) + (spec_field(
        spec_label("width"),
        c.width as int,
    ) + (spec_field(spec_label("interaction_radius"), c.interaction_radius as int) + spec_field(
        spec_label("max_movement"),
        c.max_movement as int,
    )))))
}

/// The rendered lines of the demographic curve.
pub open spec fn spec_render_age(a: AgeAndDeath) -> Seq<u8> {
    spec_field(spec_label("mean_age"), a.mean_age as int) + (spec_field(
        spec_label("stddev_age"),
        a.stddev_age as int,
    ) + (spec_field(spec_label("mid_age"), a.mid_age as int) + (spec_field(
        spec_label("max_start_age"),
        a.max_start_age as int,
    ) + spec_field(spec_label("steepness"), a.steepness as int))))
}

/// The rendered lines of the education curve.
pub open spec fn spec_render_edu(e: Education) -> Seq<u8> {
    spec_field(spec_label("initial_adult_min"), e.initial_adult_min as int) + (spec_field(
        spec_label("initial_adult_max"),
        e.initial_adult_max as int,
    ) + (spec_field(
        spec_label("elemental_education_threshold"),
        e.elemental_education_threshold as int,
    ) + (spec_field(
        spec_label("children_education_jitter"),
        e.children_education_jitter as int,
    ) + (spec_field(spec_label("learning_rate_min"), e.learning_rate_min as int) + (spec_field(
        spec_label("learning_rate_max"),
        e.learning_rate_max as int,
    ) + spec_field(spec_label("max_education"), e.max as int))))))
}

/// The rendered lines of the income and consumption curve.
pub open spec fn spec_render_ic(ic: IncomeAndConsumption) -> Seq<u8> {
    spec_field(spec_label("income_age_parameter"), ic.income_age_parameter as int) + (spec_field(
        spec_label("income_education_parameter"),
        ic.income_education_parameter as int,
    ) + (spec_field(spec_label("base_consumption"), ic.base_consumption as int) + spec_field(
        spec_label("aditional_consumption_rate"),
        ic.aditional_consumption_rate as int,
    )))
}

/// The rendered lines of the transaction curve.
pub open spec fn spec_render_tx(t: Transaction) -> Seq<u8> {
    spec_field(spec_label("transaction_probability"), t.transaction_probability as int) + (
    spec_field(spec_label("transaction_education_parameter"), t.education_parameter as int) + (
    spec_field(spec_label("transaction_age_parameter"), t.age_parameter as int) + (spec_field(
        spec_label("tax_rate"),
        t.tax_rate as int,
    ) + spec_field(spec_label("amount_rate"), t.amount_rate as int))))
}

/// The rendered lines of the wealth and inheritance curve.
pub open spec fn spec_render_wealth(w: Wealth) -> Seq<u8> {
    spec_field(spec_label("min_initial_wealth"), w.min_initial_wealth as int) + (spec_field(
        spec_label("max_initial_wealth"),
        w.max_initial_wealth as int,
    ) + (spec_field(
        spec_label("min_inheritance_at_birth_rate"),
        w.min_inheritance_at_birth_rate as int,
    ) + spec_field(spec_label("max_inheritance_at_birth_rate"), w.max_inheritance_at_birth_rate
        as int)))
}

/// The whole rendered configuration, section by section.
pub open spec fn spec_render_config(c: EnvironmentConfig) -> Seq<u8> {
    spec_render_dims(c) + (spec_render_age(c.age_and_death) + (spec_render_edu(c.education) + (
    spec_render_ic(c.income_and_consumption) + (spec_render_tx(c.transaction) + spec_render_wealth(
        c.wealth,
    )))))
}

/// Appends the lines of the top-level bounds and counts.
fn render_dims(c: &EnvironmentConfig, out: &mut Vec<u8>)
    requires
        c.valid(),
    ensures
        final(out)@ == old(out)@ + spec_render_dims(*c),
{
    push_field("num_agents", c.num_agents as i64, out);
    push_field("num_iterations", c.num_iterations as i64, out);
    push_field("length", c.length as i64, out);
    push_field("width", c.width as i64, out);
    push_field("interaction_radius", c.interaction_radius, out);
    push_field("max_movement", c.max_movement, out);
    proof {
        assert(final(out)@ =~= old(out)@ + spec_render_dims(*c));
    }
}

/// Appends the lines of the demographic curve.
fn render_age(a: &AgeAndDeath, out: &mut Vec<u8>)
    requires
        a.wf(),
    ensures
        final(out)@ == old(out)@ + spec_render_age(*a),
{
    push_field("mean_age", a.mean_age as i64, out);
    push_field("stddev_age", a.stddev_age as i64, out);
    push_field("mid_age", a.mid_age as i64, out);
    push_field("max_start_age", a.max_start_age as i64, out);
    push_field("steepness", a.steepness, out);
    proof {
        assert(final(out)@ =~= old(out)@ + spec_render_age(*a));
    }
}

/// Appends the lines of the education curve.
fn render_edu(e: &Education, out: &mut Vec<u8>)
    requires
        e.wf(),
    ensures
        final(out)@ == old(out)@ + spec_render_edu(*e),
{
    push_field("initial_adult_min", e.initial_adult_min, out);
    push_field("initial_adult_max", e.initial_adult_max, out);
    push_field("elemental_education_threshold", e.elemental_education_threshold, out);
    push_field("children_education_jitter", e.children_education_jitter, out);
    push_field("learning_rate_min", e.learning_rate_min, out);
    push_field("learning_rate_max", e.learning_rate_max, out);
    push_field("max_education", e.max, out);
    proof {
        assert(final(out)@ =~= old(out)@ + spec_render_edu(*e));
    }
}

/// Appends the lines of the income and consumption curve.
fn render_ic(ic: &IncomeAndConsumption, out: &mut Vec<u8>)
    requires
        ic.wf(),
    ensures
        final(out)@ == old(out)@ + spec_render_ic(*ic),
{
    push_field("income_age_parameter", ic.income_age_parameter, out);
    push_field("income_education_parameter", ic.income_education_parameter, out);
    push_field("base_consumption", ic.base_consumption, out);
    push_field("aditional_consumption_rate", ic.aditional_consumption_rate, out);
    proof {
        assert(final(out)@ =~= old(out)@ + spec_render_ic(*ic));
    }
}

/// Appends the lines of the transaction curve.
fn render_tx(t: &Transaction, out: &mut Vec<u8>)
    requires
        t.wf(),
    ensures
        final(out)@ == old(out)@ + spec_render_tx(*t),
{
    push_field("transaction_probability", t.transaction_probability, out);
    push_field("transaction_education_parameter", t.education_parameter, out);
    push_field("transaction_age_parameter", t.age_parameter, out);
    push_field("tax_rate", t.tax_rate, out);
    push_field("amount_rate", t.amount_rate, out);
    proof {
        assert(final(out)@ =~= old(out)@ + spec_render_tx(*t));
    }
}

/// Appends the lines of the wealth and inheritance curve.
fn render_wealth(w: &Wealth, out: &mut Vec<u8>)
    requires
        w.wf(),
    ensures
        final(out)@ == old(out)@ + spec_render_wealth(*w),
{
    push_field("min_initial_wealth", w.min_initial_wealth, out);
    push_field("max_initial_wealth", w.max_initial_wealth, out);
    push_field("min_inheritance_at_birth_rate", w.min_inheritance_at_birth_rate, out);
    push_field("max_inheritance_at_birth_rate", w.max_inheritance_at_birth_rate, out);
    proof {
        assert(final(out)@ =~= old(out)@ + spec_render_wealth(*w));
    }
}

/// Renders a valid configuration as its text record.
#[verifier::rlimit(100)]
pub fn render_config(c: &EnvironmentConfig) -> (r: Vec<u8>)
    requires
        c.valid(),
    ensures
        r@ == spec_render_config(*c),
{
    let mut out: Vec<u8> = Vec::new();
    render_dims(c, &mut out);
    render_age(&c.age_and_death, &mut out);
    render_edu(&c.education, &mut out);
    render_ic(&c.income_and_consumption, &mut out);
    render_tx(&c.transaction, &mut out);
    render_wealth(&c.wealth, &mut out);
    proof {
        assert(out@ =~= spec_render_config(*c));
    }
    out
}

/// Where the separator of a well-formed field stands: a scan that stopped
/// at `p`, having seen no separator before it, stopped exactly at the end
/// of the label, inside the input.
proof fn lemma_field_position(s: Seq<u8>, pos: int, label: Seq<u8>, v: int, rest: Seq<u8>, p: int)
    requires
        field_at(s, pos, label, v, rest),
        pos <= p <= s.len(),
        forall|i: int| pos <= i < p ==> (#[trigger] s[i]) != 61,
        p == s.len() || s[p] == 61,
    ensures
        p == pos + label.len(),
        p < s.len(),
        s.len() - pos >= spec_field(label, v).len(),
{
    let f = spec_field(label, v);
    assert(s.skip(pos).len() == s.len() - pos);
    assert(s.skip(pos).len() == f.len() + rest.len());
    assert(forall|i: int| 0 <= i < s.len() - pos ==> s[pos + i] == #[trigger] s.skip(pos)[i]);
    assert(s.skip(pos)[label.len() as int] == 61);
    assert(s[pos + label.len()] == 61);
    if p < pos + label.len() {
        assert(s.skip(pos)[p - pos] == label[p - pos]);
        assert(s[p] == label[p - pos]);
        assert(label_byte_ok(label[p - pos]));
        assert(false);
    }
    if p > pos + label.len() {
        assert(s[pos + label.len()] != 61);
        assert(false);
    }
}

/// Every byte of a written label is admissible.
proof fn lemma_label_ok(s: &str)
    ensures
        label_ok(spec_label(s)),
{
    assert forall|i: int| 0 <= i < spec_label(s).len() implies label_byte_ok(
        #[trigger] spec_label(s)[i],
    ) by {
        s.spec_bytes().lemma_filter_pred(|b: u8| label_byte_ok(b), i);
    }
}


/// A well-formed demographic curve section stands at `pos`, with `rest` after it.
pub open spec fn age_at(s: Seq<u8>, pos: int, a: AgeAndDeath, rest: Seq<u8>) -> bool {
    &&& a.wf()
    &&& 0 <= pos <= s.len()
    &&& s.skip(pos) == spec_render_age(a) + rest
}

/// Reads the demographic curve section; whenever a well-formed section stands
/// at `pos`, exactly it is consumed and its values returned.
fn parse_age(buf: &Vec<u8>, pos: usize) -> (r: (AgeAndDeath, usize, bool))
    requires
        pos <= buf@.len(),
    ensures
        pos <= r.1 <= buf@.len(),
        forall|a: AgeAndDeath, rest: Seq<u8>|
            #[trigger] age_at(buf@, pos as int, a, rest) ==> r == (
                a,
                (pos + spec_render_age(a).len()) as usize,
                true,
            ),
{
    let total = buf.len();
    proof {
        assert(buf@.len() == total as int);
    }
    let f1 = parse_field(buf, pos);
    let f2 = parse_field(buf, f1.1);
    let f3 = parse_field(buf, f2.1);
    let f4 = parse_field(buf, f3.1);
    let f5 = parse_field(buf, f4.1);
    let mut ok = f1.2 && f2.2 && f3.2 && f4.2 && f5.2;
    let mut parsed = AgeAndDeath { mean_age: 0, stddev_age: 0, mid_age: 0, max_start_age: 0, steepness: 0 };
    if ok && 0 <= f1.0 && f1.0 <= u32::MAX as i64 && 0 <= f2.0 && f2.0 <= u32::MAX as i64 && 0 <= f3.0 && f3.0 <= u32::MAX as i64 && 0 <= f4.0 && f4.0 <= u32::MAX as i64 {
        parsed = AgeAndDeath { mean_age: f1.0 as u32, stddev_age: f2.0 as u32, mid_age: f3.0 as u32, max_start_age: f4.0 as u32, steepness: f5.0 };
    } else {
        ok = false;
    }
    proof {
        assert forall|a: AgeAndDeath, rest: Seq<u8>|
            #[trigger] age_at(buf@, pos as int, a, rest) implies (parsed, f5.1, ok) == (
            a,
            (pos + spec_render_age(a).len()) as usize,
            true,
        ) by {
            let g1 = spec_field(spec_label("mean_age"), a.mean_age as int);
            lemma_label_ok("mean_age");
            let g2 = spec_field(spec_label("stddev_age"), a.stddev_age as int);
            lemma_label_ok("stddev_age");
            let g3 = spec_field(spec_label("mid_age"), a.mid_age as int);
            lemma_label_ok("mid_age");
            let g4 = spec_field(spec_label("max_start_age"), a.max_start_age as int);
            lemma_label_ok("max_start_age");
            let g5 = spec_field(spec_label("steepness"), a.steepness as int);
            lemma_label_ok("steepness");
            assert(buf@.skip(pos as int) =~= g1 + ((g2 + (g3 + (g4 + (g5)))) + rest));
            assert(field_at(buf@, pos as int, spec_label("mean_age"), a.mean_age as int, (g2 + (g3 + (g4 + (g5)))) + rest));
            assert(buf@.skip(pos as int).len() == buf@.len() - (pos as int));
            assert((g1 + ((g2 + (g3 + (g4 + (g5)))) + rest)).len() == g1.len() + ((g2 + (g3 + (g4 + (g5)))) + rest).len());
            assert(pos as int + g1.len() <= buf@.len());
            lemma_skip_skip(buf@, pos as int, g1.len() as int);
            lemma_skip_concat(g1, (g2 + (g3 + (g4 + (g5)))) + rest);
            assert(f1.1 as int == pos as int + g1.len());
            assert(buf@.skip(f1.1 as int) == (g2 + (g3 + (g4 + (g5)))) + rest);
            assert(buf@.skip(f1.1 as int) =~= g2 + ((g3 + (g4 + (g5))) + rest));
            assert(field_at(buf@, f1.1 as int, spec_label("stddev_age"), a.stddev_age as int, (g3 + (g4 + (g5))) + rest));
            assert(buf@.skip(f1.1 as int).len() == buf@.len() - (f1.1 as int));
            assert((g2 + ((g3 + (g4 + (g5))) + rest)).len() == g2.len() + ((g3 + (g4 + (g5))) + rest).len());
            assert(f1.1 as int + g2.len() <= buf@.len());
            lemma_skip_skip(buf@, f1.1 as int, g2.len() as int);
            lemma_skip_concat(g2, (g3 + (g4 + (g5))) + rest);
            assert(f2.1 as int == f1.1 as int + g2.len());
            assert(buf@.skip(f2.1 as int) == (g3 + (g4 + (g5))) + rest);
            assert(buf@.skip(f2.1 as int) =~= g3 + ((g4 + (g5)) + rest));
            assert(field_at(buf@, f2.1 as int, spec_label("mid_age"), a.mid_age as int, (g4 + (g5)) + rest));
            assert(buf@.skip(f2.1 as int).len() == buf@.len() - (f2.1 as int));
            assert((g3 + ((g4 + (g5)) + rest)).len() == g3.len() + ((g4 + (g5)) + rest).len());
            assert(f2.1 as int + g3.len() <= buf@.len());
            lemma_skip_skip(buf@, f2.1 as int, g3.len() as int);
            lemma_skip_concat(g3, (g4 + (g5)) + rest);
            assert(f3.1 as int == f2.1 as int + g3.len());
            assert(buf@.skip(f3.1 as int) == (g4 + (g5)) + rest);
            assert(buf@.skip(f3.1 as int) =~= g4 + ((g5) + rest));
            assert(field_at(buf@, f3.1 as int, spec_label("max_start_age"), a.max_start_age as int, (g5) + rest));
            assert(buf@.skip(f3.1 as int).len() == buf@.len() - (f3.1 as int));
            assert((g4 + ((g5) + rest)).len() == g4.len() + ((g5) + rest).len());
            assert(f3.1 as int + g4.len() <= buf@.len());
            lemma_skip_skip(buf@, f3.1 as int, g4.len() as int);
            lemma_skip_concat(g4, (g5) + rest);
            assert(f4.1 as int == f3.1 as int + g4.len());
            assert(buf@.skip(f4.1 as int) == (g5) + rest);
            assert(buf@.skip(f4.1 as int) =~= g5 + (rest));
            assert(field_at(buf@, f4.1 as int, spec_label("steepness"), a.steepness as int, rest));
            assert(buf@.skip(f4.1 as int).len() == buf@.len() - (f4.1 as int));
            assert((g5 + (rest)).len() == g5.len() + (rest).len());
            assert(f4.1 as int + g5.len() <= buf@.len());
            lemma_skip_skip(buf@, f4.1 as int, g5.len() as int);
            lemma_skip_concat(g5, rest);
            assert(f5.1 as int == f4.1 as int + g5.len());
            assert(buf@.skip(f5.1 as int) == rest);
        }
    }
    (parsed, f5.1, ok)
}

/// A well-formed education curve section stands at `pos`, with `rest` after it.
pub open spec fn edu_at(s: Seq<u8>, pos: int, e: Education, rest: Seq<u8>) -> bool {
    &&& e.wf()
    &&& 0 <= pos <= s.len()
    &&& s.skip(pos) == spec_render_edu(e) + rest
}

/// Reads the education curve section; whenever a well-formed section stands
/// at `pos`, exactly it is consumed and its values returned.
#[verifier::rlimit(100)]
fn parse_edu(buf: &Vec<u8>, pos: usize) -> (r: (Education, usize, bool))
    requires
        pos <= buf@.len(),
    ensures
        pos <= r.1 <= buf@.len(),
        forall|e: Education, rest: Seq<u8>|
            #[trigger] edu_at(buf@, pos as int, e, rest) ==> r == (
                e,
                (pos + spec_render_edu(e).len()) as usize,
                true,
            ),
{
    let total = buf.len();
    proof {
        assert(buf@.len() == total as int);
    }
    let f1 = parse_field(buf, pos);
    let f2 = parse_field(buf, f1.1);
    let f3 = parse_field(buf, f2.1);
    let f4 = parse_field(buf, f3.1);
    let f5 = parse_field(buf, f4.1);
    let f6 = parse_field(buf, f5.1);
    let f7 = parse_field(buf, f6.1);
    let mut ok = f1.2 && f2.2 && f3.2 && f4.2 && f5.2 && f6.2 && f7.2;
    let mut parsed = Education { initial_adult_min: 0, initial_adult_max: 0, elemental_education_threshold: 0, children_education_jitter: 0, learning_rate_min: 0, learning_rate_max: 0, max: 0 };
    if ok {
        parsed = Education { initial_adult_min: f1.0, initial_adult_max: f2.0, elemental_education_threshold: f3.0, children_education_jitter: f4.0, learning_rate_min: f5.0, learning_rate_max: f6.0, max: f7.0 };
    }
    proof {
        assert forall|e: Education, rest: Seq<u8>|
            #[trigger] edu_at(buf@, pos as int, e, rest) implies (parsed, f7.1, ok) == (
            e,
            (pos + spec_render_edu(e).len()) as usize,
            true,
        ) by {
            let g1 = spec_field(spec_label("initial_adult_min"), e.initial_adult_min as int);
            lemma_label_ok("initial_adult_min");
            let g2 = spec_field(spec_label("initial_adult_max"), e.initial_adult_max as int);
            lemma_label_ok("initial_adult_max");
            let g3 = spec_field(spec_label("elemental_education_threshold"), e.elemental_education_threshold as int);
            lemma_label_ok("elemental_education_threshold");
            let g4 = spec_field(spec_label("children_education_jitter"), e.children_education_jitter as int);
            lemma_label_ok("children_education_jitter");
            let g5 = spec_field(spec_label("learning_rate_min"), e.learning_rate_min as int);
            lemma_label_ok("learning_rate_min");
            let g6 = spec_field(spec_label("learning_rate_max"), e.learning_rate_max as int);
            lemma_label_ok("learning_rate_max");
            let g7 = spec_field(spec_label("max_education"), e.max as int);
            lemma_label_ok("max_education");
            assert(buf@.skip(pos as int) =~= g1 + ((g2 + (g3 + (g4 + (g5 + (g6 + (g7)))))) + rest));
            assert(field_at(buf@, pos as int, spec_label("initial_adult_min"), e.initial_adult_min as int, (g2 + (g3 + (g4 + (g5 + (g6 + (g7)))))) + rest));
            assert(buf@.skip(pos as int).len() == buf@.len() - (pos as int));
            assert((g1 + ((g2 + (g3 + (g4 + (g5 + (g6 + (g7)))))) + rest)).len() == g1.len() + ((g2 + (g3 + (g4 + (g5 + (g6 + (g7)))))) + rest).len());
            assert(pos as int + g1.len() <= buf@.len());
            lemma_skip_skip(buf@, pos as int, g1.len() as int);
            lemma_skip_concat(g1, (g2 + (g3 + (g4 + (g5 + (g6 + (g7)))))) + rest);
            assert(f1.1 as int == pos as int + g1.len());
            assert(buf@.skip(f1.1 as int) == (g2 + (g3 + (g4 + (g5 + (g6 + (g7)))))) + rest);
            assert(buf@.skip(f1.1 as int) =~= g2 + ((g3 + (g4 + (g5 + (g6 + (g7))))) + rest));
            assert(field_at(buf@, f1.1 as int, spec_label("initial_adult_max"), e.initial_adult_max as int, (g3 + (g4 + (g5 + (g6 + (g7))))) + rest));
            assert(buf@.skip(f1.1 as int).len() == buf@.len() - (f1.1 as int));
            assert((g2 + ((g3 + (g4 + (g5 + (g6 + (g7))))) + rest)).len() == g2.len() + ((g3 + (g4 + (g5 + (g6 + (g7))))) + rest).len());
            assert(f1.1 as int + g2.len() <= buf@.len());
            lemma_skip_skip(buf@, f1.1 as int, g2.len() as int);
            lemma_skip_concat(g2, (g3 + (g4 + (g5 + (g6 + (g7))))) + rest);
            assert(f2.1 as int == f1.1 as int + g2.len());
            assert(buf@.skip(f2.1 as int) == (g3 + (g4 + (g5 + (g6 + (g7))))) + rest);
            assert(buf@.skip(f2.1 as int) =~= g3 + ((g4 + (g5 + (g6 + (g7)))) + rest));
            assert(field_at(buf@, f2.1 as int, spec_label("elemental_education_threshold"), e.elemental_education_threshold as int, (g4 + (g5 + (g6 + (g7)))) + rest));
            assert(buf@.skip(f2.1 as int).len() == buf@.len() - (f2.1 as int));
            assert((g3 + ((g4 + (g5 + (g6 + (g7)))) + rest)).len() == g3.len() + ((g4 + (g5 + (g6 + (g7)))) + rest).len());
            assert(f2.1 as int + g3.len() <= buf@.len());
            lemma_skip_skip(buf@, f2.1 as int, g3.len() as int);
            lemma_skip_concat(g3, (g4 + (g5 + (g6 + (g7)))) + rest);
            assert(f3.1 as int == f2.1 as int + g3.len());
            assert(buf@.skip(f3.1 as int) == (g4 + (g5 + (g6 + (g7)))) + rest);
            assert(buf@.skip(f3.1 as int) =~= g4 + ((g5 + (g6 + (g7))) + rest));
            assert(field_at(buf@, f3.1 as int, spec_label("children_education_jitter"), e.children_education_jitter as int, (g5 + (g6 + (g7))) + rest));
            assert(buf@.skip(f3.1 as int).len() == buf@.len() - (f3.1 as int));
            assert((g4 + ((g5 + (g6 + (g7))) + rest)).len() == g4.len() + ((g5 + (g6 + (g7))) + rest).len());
            assert(f3.1 as int + g4.len() <= buf@.len());
            lemma_skip_skip(buf@, f3.1 as int, g4.len() as int);
            lemma_skip_concat(g4, (g5 + (g6 + (g7))) + rest);
            assert(f4.1 as int == f3.1 as int + g4.len());
            assert(buf@.skip(f4.1 as int) == (g5 + (g6 + (g7))) + rest);
            assert(buf@.skip(f4.1 as int) =~= g5 + ((g6 + (g7)) + rest));
            assert(field_at(buf@, f4.1 as int, spec_label("learning_rate_min"), e.learning_rate_min as int, (g6 + (g7)) + rest));
            assert(buf@.skip(f4.1 as int).len() == buf@.len() - (f4.1 as int));
            assert((g5 + ((g6 + (g7)) + rest)).len() == g5.len() + ((g6 + (g7)) + rest).len());
            assert(f4.1 as int + g5.len() <= buf@.len());
            lemma_skip_skip(buf@, f4.1 as int, g5.len() as int);
            lemma_skip_concat(g5, (g6 + (g7)) + rest);
            assert(f5.1 as int == f4.1 as int + g5.len());
            assert(buf@.skip(f5.1 as int) == (g6 + (g7)) + rest);
            assert(buf@.skip(f5.1 as int) =~= g6 + ((g7) + rest));
            assert(field_at(buf@, f5.1 as int, spec_label("learning_rate_max"), e.learning_rate_max as int, (g7) + rest));
            assert(buf@.skip(f5.1 as int).len() == buf@.len() - (f5.1 as int));
            assert((g6 + ((g7) + rest)).len() == g6.len() + ((g7) + rest).len());
            assert(f5.1 as int + g6.len() <= buf@.len());
            lemma_skip_skip(buf@, f5.1 as int, g6.len() as int);
            lemma_skip_concat(g6, (g7) + rest);
            assert(f6.1 as int == f5.1 as int + g6.len());
            assert(buf@.skip(f6.1 as int) == (g7) + rest);
            assert(buf@.skip(f6.1 as int) =~= g7 + (rest));
            assert(field_at(buf@, f6.1 as int, spec_label("max_education"), e.max as int, rest));
            assert(buf@.skip(f6.1 as int).len() == buf@.len() - (f6.1 as int));
            assert((g7 + (rest)).len() == g7.len() + (rest).len());
            assert(f6.1 as int + g7.len() <= buf@.len());
            lemma_skip_skip(buf@, f6.1 as int, g7.len() as int);
            lemma_skip_concat(g7, rest);
            assert(f7.1 as int == f6.1 as int + g7.len());
            assert(buf@.skip(f7.1 as int) == rest);
        }
    }
    (parsed, f7.1, ok)
}

/// A well-formed income and consumption curve section stands at `pos`, with `rest` after it.
pub open spec fn ic_at(s: Seq<u8>, pos: int, ic: IncomeAndConsumption, rest: Seq<u8>) -> bool {
    &&& ic.wf()
    &&& 0 <= pos <= s.len()
    &&& s.skip(pos) == spec_render_ic(ic) + rest
}

/// Reads the income and consumption curve section; whenever a well-formed section stands
/// at `pos`, exactly it is consumed and its values returned.
fn parse_ic(buf: &Vec<u8>, pos: usize) -> (r: (IncomeAndConsumption, usize, bool))
    requires
        pos <= buf@.len(),
    ensures
        pos <= r.1 <= buf@.len(),
        forall|ic: IncomeAndConsumption, rest: Seq<u8>|
            #[trigger] ic_at(buf@, pos as int, ic, rest) ==> r == (
                ic,
                (pos + spec_render_ic(ic).len()) as usize,
                true,
            ),
{
    let total = buf.len();
    proof {
        assert(buf@.len() == total as int);
    }
    let f1 = parse_field(buf, pos);
    let f2 = parse_field(buf, f1.1);
    let f3 = parse_field(buf, f2.1);
    let f4 = parse_field(buf, f3.1);
    let mut ok = f1.2 && f2.2 && f3.2 && f4.2;
    let mut parsed = IncomeAndConsumption { income_age_parameter: 0, income_education_parameter: 0, base_consumption: 0, aditional_consumption_rate: 0 };
    if ok {
        parsed = IncomeAndConsumption { income_age_parameter: f1.0, income_education_parameter: f2.0, base_consumption: f3.0, aditional_consumption_rate: f4.0 };
    }
    proof {
        assert forall|ic: IncomeAndConsumption, rest: Seq<u8>|
            #[trigger] ic_at(buf@, pos as int, ic, rest) implies (parsed, f4.1, ok) == (
            ic,
            (pos + spec_render_ic(ic).len()) as usize,
            true,
        ) by {
            let g1 = spec_field(spec_label("income_age_parameter"), ic.income_age_parameter as int);
            lemma_label_ok("income_age_parameter");
            let g2 = spec_field(spec_label("income_education_parameter"), ic.income_education_parameter as int);
            lemma_label_ok("income_education_parameter");
            let g3 = spec_field(spec_label("base_consumption"), ic.base_consumption as int);
            lemma_label_ok("base_consumption");
            let g4 = spec_field(spec_label("aditional_consumption_rate"), ic.aditional_consumption_rate as int);
            lemma_label_ok("aditional_consumption_rate");
            assert(buf@.skip(pos as int) =~= g1 + ((g2 + (g3 + (g4))) + rest));
            assert(field_at(buf@, pos as int, spec_label("income_age_parameter"), ic.income_age_parameter as int, (g2 + (g3 + (g4))) + rest));
            assert(buf@.skip(pos as int).len() == buf@.len() - (pos as int));
            assert((g1 + ((g2 + (g3 + (g4))) + rest)).len() == g1.len() + ((g2 + (g3 + (g4))) + rest).len());
            assert(pos as int + g1.len() <= buf@.len());
            lemma_skip_skip(buf@, pos as int, g1.len() as int);
            lemma_skip_concat(g1, (g2 + (g3 + (g4))) + rest);
            assert(f1.1 as int == pos as int + g1.len());
            assert(buf@.skip(f1.1 as int) == (g2 + (g3 + (g4))) + rest);
            assert(buf@.skip(f1.1 as int) =~= g2 + ((g3 + (g4)) + rest));
            assert(field_at(buf@, f1.1 as int, spec_label("income_education_parameter"), ic.income_education_parameter as int, (g3 + (g4)) + rest));
            assert(buf@.skip(f1.1 as int).len() == buf@.len() - (f1.1 as int));
            assert((g2 + ((g3 + (g4)) + rest)).len() == g2.len() + ((g3 + (g4)) + rest).len());
            assert(f1.1 as int + g2.len() <= buf@.len());
            lemma_skip_skip(buf@, f1.1 as int, g2.len() as int);
            lemma_skip_concat(g2, (g3 + (g4)) + rest);
            assert(f2.1 as int == f1.1 as int + g2.len());
            assert(buf@.skip(f2.1 as int) == (g3 + (g4)) + rest);
            assert(buf@.skip(f2.1 as int) =~= g3 + ((g4) + rest));
            assert(field_at(buf@, f2.1 as int, spec_label("base_consumption"), ic.base_consumption as int, (g4) + rest));
            assert(buf@.skip(f2.1 as int).len() == buf@.len() - (f2.1 as int));
            assert((g3 + ((g4) + rest)).len() == g3.len() + ((g4) + rest).len());
            assert(f2.1 as int + g3.len() <= buf@.len());
            lemma_skip_skip(buf@, f2.1 as int, g3.len() as int);
            lemma_skip_concat(g3, (g4) + rest);
            assert(f3.1 as int == f2.1 as int + g3.len());
            assert(buf@.skip(f3.1 as int) == (g4) + rest);
            assert(buf@.skip(f3.1 as int) =~= g4 + (rest));
            assert(field_at(buf@, f3.1 as int, spec_label("aditional_consumption_rate"), ic.aditional_consumption_rate as int, rest));
            assert(buf@.skip(f3.1 as int).len() == buf@.len() - (f3.1 as int));
            assert((g4 + (rest)).len() == g4.len() + (rest).len());
            assert(f3.1 as int + g4.len() <= buf@.len());
            lemma_skip_skip(buf@, f3.1 as int, g4.len() as int);
            lemma_skip_concat(g4, rest);
            assert(f4.1 as int == f3.1 as int + g4.len());
            assert(buf@.skip(f4.1 as int) == rest);
        }
    }
    (parsed, f4.1, ok)
}

/// A well-formed transaction curve section stands at `pos`, with `rest` after it.
pub open spec fn tx_at(s: Seq<u8>, pos: int, t: Transaction, rest: Seq<u8>) -> bool {
    &&& t.wf()
    &&& 0 <= pos <= s.len()
    &&& s.skip(pos) == spec_render_tx(t) + rest
}

/// Reads the transaction curve section; whenever a well-formed section stands
/// at `pos`, exactly it is consumed and its values returned.
fn parse_tx(buf: &Vec<u8>, pos: usize) -> (r: (Transaction, usize, bool))
    requires
        pos <= buf@.len(),
    ensures
        pos <= r.1 <= buf@.len(),
        forall|t: Transaction, rest: Seq<u8>|
            #[trigger] tx_at(buf@, pos as int, t, rest) ==> r == (
                t,
                (pos + spec_render_tx(t).len()) as usize,
                true,
            ),
{
    let total = buf.len();
    proof {
        assert(buf@.len() == total as int);
    }
    let f1 = parse_field(buf, pos);
    let f2 = parse_field(buf, f1.1);
    let f3 = parse_field(buf, f2.1);
    let f4 = parse_field(buf, f3.1);
    let f5 = parse_field(buf, f4.1);
    let mut ok = f1.2 && f2.2 && f3.2 && f4.2 && f5.2;
    let mut parsed = Transaction { transaction_probability: 0, education_parameter: 0, age_parameter: 0, tax_rate: 0, amount_rate: 0 };
    if ok {
        parsed = Transaction { transaction_probability: f1.0, education_parameter: f2.0, age_parameter: f3.0, tax_rate: f4.0, amount_rate: f5.0 };
    }
    proof {
        assert forall|t: Transaction, rest: Seq<u8>|
            #[trigger] tx_at(buf@, pos as int, t, rest) implies (parsed, f5.1, ok) == (
            t,
            (pos + spec_render_tx(t).len()) as usize,
            true,
        ) by {
            let g1 = spec_field(spec_label("transaction_probability"), t.transaction_probability as int);
            lemma_label_ok("transaction_probability");
            let g2 = spec_field(spec_label("transaction_education_parameter"), t.education_parameter as int);
            lemma_label_ok("transaction_education_parameter");
            let g3 = spec_field(spec_label("transaction_age_parameter"), t.age_parameter as int);
            lemma_label_ok("transaction_age_parameter");
            let g4 = spec_field(spec_label("tax_rate"), t.tax_rate as int);
            lemma_label_ok("tax_rate");
            let g5 = spec_field(spec_label("amount_rate"), t.amount_rate as int);
            lemma_label_ok("amount_rate");
            assert(buf@.skip(pos as int) =~= g1 + ((g2 + (g3 + (g4 + (g5)))) + rest));
            assert(field_at(buf@, pos as int, spec_label("transaction_probability"), t.transaction_probability as int, (g2 + (g3 + (g4 + (g5)))) + rest));
            assert(buf@.skip(pos as int).len() == buf@.len() - (pos as int));
            assert((g1 + ((g2 + (g3 + (g4 + (g5)))) + rest)).len() == g1.len() + ((g2 + (g3 + (g4 + (g5)))) + rest).len());
            assert(pos as int + g1.len() <= buf@.len());
            lemma_skip_skip(buf@, pos as int, g1.len() as int);
            lemma_skip_concat(g1, (g2 + (g3 + (g4 + (g5)))) + rest);
            assert(f1.1 as int == pos as int + g1.len());
            assert(buf@.skip(f1.1 as int) == (g2 + (g3 + (g4 + (g5)))) + rest);
            assert(buf@.skip(f1.1 as int) =~= g2 + ((g3 + (g4 + (g5))) + rest));
            assert(field_at(buf@, f1.1 as int, spec_label("transaction_education_parameter"), t.education_parameter as int, (g3 + (g4 + (g5))) + rest));
            assert(buf@.skip(f1.1 as int).len() == buf@.len() - (f1.1 as int));
            assert((g2 + ((g3 + (g4 + (g5))) + rest)).len() == g2.len() + ((g3 + (g4 + (g5))) + rest).len());
            assert(f1.1 as int + g2.len() <= buf@.len());
            lemma_skip_skip(buf@, f1.1 as int, g2.len() as int);
            lemma_skip_concat(g2, (g3 + (g4 + (g5))) + rest);
            assert(f2.1 as int == f1.1 as int + g2.len());
            assert(buf@.skip(f2.1 as int) == (g3 + (g4 + (g5))) + rest);
            assert(buf@.skip(f2.1 as int) =~= g3 + ((g4 + (g5)) + rest));
            assert(field_at(buf@, f2.1 as int, spec_label("transaction_age_parameter"), t.age_parameter as int, (g4 + (g5)) + rest));
            assert(buf@.skip(f2.1 as int).len() == buf@.len() - (f2.1 as int));
            assert((g3 + ((g4 + (g5)) + rest)).len() == g3.len() + ((g4 + (g5)) + rest).len());
            assert(f2.1 as int + g3.len() <= buf@.len());
            lemma_skip_skip(buf@, f2.1 as int, g3.len() as int);
            lemma_skip_concat(g3, (g4 + (g5)) + rest);
            assert(f3.1 as int == f2.1 as int + g3.len());
            assert(buf@.skip(f3.1 as int) == (g4 + (g5)) + rest);
            assert(buf@.skip(f3.1 as int) =~= g4 + ((g5) + rest));
            assert(field_at(buf@, f3.1 as int, spec_label("tax_rate"), t.tax_rate as int, (g5) + rest));
            assert(buf@.skip(f3.1 as int).len() == buf@.len() - (f3.1 as int));
            assert((g4 + ((g5) + rest)).len() == g4.len() + ((g5) + rest).len());
            assert(f3.1 as int + g4.len() <= buf@.len());
            lemma_skip_skip(buf@, f3.1 as int, g4.len() as int);
            lemma_skip_concat(g4, (g5) + rest);
            assert(f4.1 as int == f3.1 as int + g4.len());
            assert(buf@.skip(f4.1 as int) == (g5) + rest);
            assert(buf@.skip(f4.1 as int) =~= g5 + (rest));
            assert(field_at(buf@, f4.1 as int, spec_label("amount_rate"), t.amount_rate as int, rest));
            assert(buf@.skip(f4.1 as int).len() == buf@.len() - (f4.1 as int));
            assert((g5 + (rest)).len() == g5.len() + (rest).len());
            assert(f4.1 as int + g5.len() <= buf@.len());
            lemma_skip_skip(buf@, f4.1 as int, g5.len() as int);
            lemma_skip_concat(g5, rest);
            assert(f5.1 as int == f4.1 as int + g5.len());
            assert(buf@.skip(f5.1 as int) == rest);
        }
    }
    (parsed, f5.1, ok)
}

/// A well-formed wealth and inheritance curve section stands at `pos`, with `rest` after it.
pub open spec fn wealth_at(s: Seq<u8>, pos: int, w: Wealth, rest: Seq<u8>) -> bool {
    &&& w.wf()
    &&& 0 <= pos <= s.len()
    &&& s.skip(pos) == spec_render_wealth(w) + rest
}

/// Reads the wealth and inheritance curve section; whenever a well-formed section stands
/// at `pos`, exactly it is consumed and its values returned.
fn parse_wealth(buf: &Vec<u8>, pos: usize) -> (r: (Wealth, usize, bool))
    requires
        pos <= buf@.len(),
    ensures
        pos <= r.1 <= buf@.len(),
        forall|w: Wealth, rest: Seq<u8>|
            #[trigger] wealth_at(buf@, pos as int, w, rest) ==> r == (
                w,
                (pos + spec_render_wealth(w).len()) as usize,
                true,
            ),
{
    let total = buf.len();
    proof {
        assert(buf@.len() == total as int);
    }
    let f1 = parse_field(buf, pos);
    let f2 = parse_field(buf, f1.1);
    let f3 = parse_field(buf, f2.1);
    let f4 = parse_field(buf, f3.1);
    let mut ok = f1.2 && f2.2 && f3.2 && f4.2;
    let mut parsed = Wealth { min_initial_wealth: 0, max_initial_wealth: 0, min_inheritance_at_birth_rate: 0, max_inheritance_at_birth_rate: 0 };
    if ok {
        parsed = Wealth { min_initial_wealth: f1.0, max_initial_wealth: f2.0, min_inheritance_at_birth_rate: f3.0, max_inheritance_at_birth_rate: f4.0 };
    }
    proof {
        assert forall|w: Wealth, rest: Seq<u8>|
            #[trigger] wealth_at(buf@, pos as int, w, rest) implies (parsed, f4.1, ok) == (
            w,
            (pos + spec_render_wealth(w).len()) as usize,
            true,
        ) by {
            let g1 = spec_field(spec_label("min_initial_wealth"), w.min_initial_wealth as int);
            lemma_label_ok("min_initial_wealth");
            let g2 = spec_field(spec_label("max_initial_wealth"), w.max_initial_wealth as int);
            lemma_label_ok("max_initial_wealth");
            let g3 = spec_field(spec_label("min_inheritance_at_birth_rate"), w.min_inheritance_at_birth_rate as int);
            lemma_label_ok("min_inheritance_at_birth_rate");
            let g4 = spec_field(spec_label("max_inheritance_at_birth_rate"), w.max_inheritance_at_birth_rate as int);
            lemma_label_ok("max_inheritance_at_birth_rate");
            assert(buf@.skip(pos as int) =~= g1 + ((g2 + (g3 + (g4))) + rest));
            assert(field_at(buf@, pos as int, spec_label("min_initial_wealth"), w.min_initial_wealth as int, (g2 + (g3 + (g4))) + rest));
            assert(buf@.skip(pos as int).len() == buf@.len() - (pos as int));
            assert((g1 + ((g2 + (g3 + (g4))) + rest)).len() == g1.len() + ((g2 + (g3 + (g4))) + rest).len());
            assert(pos as int + g1.len() <= buf@.len());
            lemma_skip_skip(buf@, pos as int, g1.len() as int);
            lemma_skip_concat(g1, (g2 + (g3 + (g4))) + rest);
            assert(f1.1 as int == pos as int + g1.len());
            assert(buf@.skip(f1.1 as int) == (g2 + (g3 + (g4))) + rest);
            assert(buf@.skip(f1.1 as int) =~= g2 + ((g3 + (g4)) + rest));
            assert(field_at(buf@, f1.1 as int, spec_label("max_initial_wealth"), w.max_initial_wealth as int, (g3 + (g4)) + rest));
            assert(buf@.skip(f1.1 as int).len() == buf@.len() - (f1.1 as int));
            assert((g2 + ((g3 + (g4)) + rest)).len() == g2.len() + ((g3 + (g4)) + rest).len());
            assert(f1.1 as int + g2.len() <= buf@.len());
            lemma_skip_skip(buf@, f1.1 as int, g2.len() as int);
            lemma_skip_concat(g2, (g3 + (g4)) + rest);
            assert(f2.1 as int == f1.1 as int + g2.len());
            assert(buf@.skip(f2.1 as int) == (g3 + (g4)) + rest);
            assert(buf@.skip(f2.1 as int) =~= g3 + ((g4) + rest));
            assert(field_at(buf@, f2.1 as int, spec_label("min_inheritance_at_birth_rate"), w.min_inheritance_at_birth_rate as int, (g4) + rest));
            assert(buf@.skip(f2.1 as int).len() == buf@.len() - (f2.1 as int));
            assert((g3 + ((g4) + rest)).len() == g3.len() + ((g4) + rest).len());
            assert(f2.1 as int + g3.len() <= buf@.len());
            lemma_skip_skip(buf@, f2.1 as int, g3.len() as int);
            lemma_skip_concat(g3, (g4) + rest);
            assert(f3.1 as int == f2.1 as int + g3.len());
            assert(buf@.skip(f3.1 as int) == (g4) + rest);
            assert(buf@.skip(f3.1 as int) =~= g4 + (rest));
            assert(field_at(buf@, f3.1 as int, spec_label("max_inheritance_at_birth_rate"), w.max_inheritance_at_birth_rate as int, rest));
            assert(buf@.skip(f3.1 as int).len() == buf@.len() - (f3.1 as int));
            assert((g4 + (rest)).len() == g4.len() + (rest).len());
            assert(f3.1 as int + g4.len() <= buf@.len());
            lemma_skip_skip(buf@, f3.1 as int, g4.len() as int);
            lemma_skip_concat(g4, rest);
            assert(f4.1 as int == f3.1 as int + g4.len());
            assert(buf@.skip(f4.1 as int) == rest);
        }
    }
    (parsed, f4.1, ok)
}

/// A well-formed top-level bounds-and-counts section stands at `pos`,
/// with `rest` after it.
pub open spec fn dims_at(s: Seq<u8>, pos: int, c: EnvironmentConfig, rest: Seq<u8>) -> bool {
    &&& c.valid()
    &&& 0 <= pos <= s.len()
    &&& s.skip(pos) == spec_render_dims(c) + rest
}

/// Reads the top-level bounds and counts; whenever a well-formed section
/// stands at `pos`, exactly it is consumed and its values returned.
#[verifier::rlimit(100)]
fn parse_dims(buf: &Vec<u8>, pos: usize) -> (r: ((usize, usize, usize, usize, i64, i64), usize, bool))
    requires
        pos <= buf@.len(),
    ensures
        pos <= r.1 <= buf@.len(),
        forall|c: EnvironmentConfig, rest: Seq<u8>|
            #[trigger] dims_at(buf@, pos as int, c, rest) ==> r == (
                (c.num_agents, c.num_iterations, c.length, c.width, c.interaction_radius, c.max_movement),
                (pos + spec_render_dims(c).len()) as usize,
                true,
            ),
{
    let total = buf.len();
    proof {
        assert(buf@.len() == total as int);
    }
    let f1 = parse_field(buf, pos);
    let f2 = parse_field(buf, f1.1);
    let f3 = parse_field(buf, f2.1);
    let f4 = parse_field(buf, f3.1);
    let f5 = parse_field(buf, f4.1);
    let f6 = parse_field(buf, f5.1);
    let mut ok = f1.2 && f2.2 && f3.2 && f4.2 && f5.2 && f6.2;
    let mut parsed: (usize, usize, usize, usize, i64, i64) = (0, 0, 0, 0, 0, 0);
    if ok && f1.0 >= 0 && (f1.0 as u64) <= (usize::MAX as u64) && f2.0 >= 0 && (f2.0 as u64)
        <= (usize::MAX as u64) && f3.0 >= 0 && (f3.0 as u64) <= (usize::MAX as u64) && f4.0 >= 0
        && (f4.0 as u64) <= (usize::MAX as u64) {
        parsed = (f1.0 as usize, f2.0 as usize, f3.0 as usize, f4.0 as usize, f5.0, f6.0);
    } else {
        ok = false;
    }
    proof {
        assert forall|c: EnvironmentConfig, rest: Seq<u8>|
            #[trigger] dims_at(buf@, pos as int, c, rest) implies (parsed, f6.1, ok) == (
            (c.num_agents, c.num_iterations, c.length, c.width, c.interaction_radius, c.max_movement),
            (pos + spec_render_dims(c).len()) as usize,
            true,
        ) by {
            let g1 = spec_field(spec_label("num_agents"), c.num_agents as int);
            lemma_label_ok("num_agents");
            let g2 = spec_field(spec_label("num_iterations"), c.num_iterations as int);
            lemma_label_ok("num_iterations");
            let g3 = spec_field(spec_label("length"), c.length as int);
            lemma_label_ok("length");
            let g4 = spec_field(spec_label("width"), c.width as int);
            lemma_label_ok("width");
            let g5 = spec_field(spec_label("interaction_radius"), c.interaction_radius as int);
            lemma_label_ok("interaction_radius");
            let g6 = spec_field(spec_label("max_movement"), c.max_movement as int);
            lemma_label_ok("max_movement");
            assert(buf@.skip(pos as int) =~= g1 + ((g2 + (g3 + (g4 + (g5 + (g6))))) + rest));
            assert(field_at(buf@, pos as int, spec_label("num_agents"), c.num_agents as int, (g2 + (g3 + (g4 + (g5 + (g6))))) + rest));
            assert(buf@.skip(pos as int).len() == buf@.len() - (pos as int));
            assert((g1 + ((g2 + (g3 + (g4 + (g5 + (g6))))) + rest)).len() == g1.len() + ((g2 + (g3 + (g4 + (g5 + (g6))))) + rest).len());
            assert(pos as int + g1.len() <= buf@.len());
            lemma_skip_skip(buf@, pos as int, g1.len() as int);
            lemma_skip_concat(g1, (g2 + (g3 + (g4 + (g5 + (g6))))) + rest);
            assert(f1.1 as int == pos as int + g1.len());
            assert(buf@.skip(f1.1 as int) == (g2 + (g3 + (g4 + (g5 + (g6))))) + rest);
            assert(buf@.skip(f1.1 as int) =~= g2 + ((g3 + (g4 + (g5 + (g6)))) + rest));
            assert(field_at(buf@, f1.1 as int, spec_label("num_iterations"), c.num_iterations as int, (g3 + (g4 + (g5 + (g6)))) + rest));
            assert(buf@.skip(f1.1 as int).len() == buf@.len() - (f1.1 as int));
            assert((g2 + ((g3 + (g4 + (g5 + (g6)))) + rest)).len() == g2.len() + ((g3 + (g4 + (g5 + (g6)))) + rest).len());
            assert(f1.1 as int + g2.len() <= buf@.len());
            lemma_skip_skip(buf@, f1.1 as int, g2.len() as int);
            lemma_skip_concat(g2, (g3 + (g4 + (g5 + (g6)))) + rest);
            assert(f2.1 as int == f1.1 as int + g2.len());
            assert(buf@.skip(f2.1 as int) == (g3 + (g4 + (g5 + (g6)))) + rest);
            assert(buf@.skip(f2.1 as int) =~= g3 + ((g4 + (g5 + (g6))) + rest));
            assert(field_at(buf@, f2.1 as int, spec_label("length"), c.length as int, (g4 + (g5 + (g6))) + rest));
            assert(buf@.skip(f2.1 as int).len() == buf@.len() - (f2.1 as int));
            assert((g3 + ((g4 + (g5 + (g6))) + rest)).len() == g3.len() + ((g4 + (g5 + (g6))) + rest).len());
            assert(f2.1 as int + g3.len() <= buf@.len());
            lemma_skip_skip(buf@, f2.1 as int, g3.len() as int);
            lemma_skip_concat(g3, (g4 + (g5 + (g6))) + rest);
            assert(f3.1 as int == f2.1 as int + g3.len());
            assert(buf@.skip(f3.1 as int) == (g4 + (g5 + (g6))) + rest);
            assert(buf@.skip(f3.1 as int) =~= g4 + ((g5 + (g6)) + rest));
            assert(field_at(buf@, f3.1 as int, spec_label("width"), c.width as int, (g5 + (g6)) + rest));
            assert(buf@.skip(f3.1 as int).len() == buf@.len() - (f3.1 as int));
            assert((g4 + ((g5 + (g6)) + rest)).len() == g4.len() + ((g5 + (g6)) + rest).len());
            assert(f3.1 as int + g4.len() <= buf@.len());
            lemma_skip_skip(buf@, f3.1 as int, g4.len() as int);
            lemma_skip_concat(g4, (g5 + (g6)) + rest);
            assert(f4.1 as int == f3.1 as int + g4.len());
            assert(buf@.skip(f4.1 as int) == (g5 + (g6)) + rest);
            assert(buf@.skip(f4.1 as int) =~= g5 + ((g6) + rest));
            assert(field_at(buf@, f4.1 as int, spec_label("interaction_radius"), c.interaction_radius as int, (g6) + rest));
            assert(buf@.skip(f4.1 as int).len() == buf@.len() - (f4.1 as int));
            assert((g5 + ((g6) + rest)).len() == g5.len() + ((g6) + rest).len());
            assert(f4.1 as int + g5.len() <= buf@.len());
            lemma_skip_skip(buf@, f4.1 as int, g5.len() as int);
            lemma_skip_concat(g5, (g6) + rest);
            assert(f5.1 as int == f4.1 as int + g5.len());
            assert(buf@.skip(f5.1 as int) == (g6) + rest);
            assert(buf@.skip(f5.1 as int) =~= g6 + (rest));
            assert(field_at(buf@, f5.1 as int, spec_label("max_movement"), c.max_movement as int, rest));
            assert(buf@.skip(f5.1 as int).len() == buf@.len() - (f5.1 as int));
            assert((g6 + (rest)).len() == g6.len() + (rest).len());
            assert(f5.1 as int + g6.len() <= buf@.len());
            lemma_skip_skip(buf@, f5.1 as int, g6.len() as int);
            lemma_skip_concat(g6, rest);
            assert(f6.1 as int == f5.1 as int + g6.len());
            assert(buf@.skip(f6.1 as int) == rest);
        }
    }
    (parsed, f6.1, ok)
}

/// Loads a configuration from its text record. A configuration rendered
/// by [`render_config`] and read back yields field-for-field equal
/// values, which is the round trip stated below; a missing or malformed
/// field, trailing text, or a configuration violating the validity
/// constraints is a load error.
#[verifier::rlimit(100)]
pub fn parse_config(buf: &Vec<u8>) -> (r: Result<EnvironmentConfig, ConfigError>)
    ensures
        forall|c: EnvironmentConfig|
            c.valid() && buf@ == spec_render_config(c) ==> r == Ok::<
                EnvironmentConfig,
                ConfigError,
            >(c),
        r matches Ok(parsed) ==> parsed.valid(),
{
    let total = buf.len();
    proof {
        assert(buf@.len() == total as int);
    }
    let sd = parse_dims(buf, 0);
    let sa = parse_age(buf, sd.1);
    let se = parse_edu(buf, sa.1);
    let si = parse_ic(buf, se.1);
    let st = parse_tx(buf, si.1);
    let sw = parse_wealth(buf, st.1);
    let ok = sd.2 && sa.2 && se.2 && si.2 && st.2 && sw.2;
    proof {
        assert forall|c: EnvironmentConfig|
            c.valid() && buf@ == spec_render_config(c) implies ok && sw.1 == total && sd.0 == (
            c.num_agents,
            c.num_iterations,
            c.length,
            c.width,
            c.interaction_radius,
            c.max_movement,
        ) && sa.0 == c.age_and_death && se.0 == c.education && si.0 == c.income_and_consumption
            && st.0 == c.transaction && sw.0 == c.wealth by {
            let h_dims = spec_render_dims(c);
            let h_age = spec_render_age(c.age_and_death);
            let h_edu = spec_render_edu(c.education);
            let h_ic = spec_render_ic(c.income_and_consumption);
            let h_tx = spec_render_tx(c.transaction);
            let h_wealth = spec_render_wealth(c.wealth);
            assert(buf@.skip(0) =~= buf@);
            assert(buf@.skip(0) =~= h_dims + (h_age + (h_edu + (h_ic + (h_tx + h_wealth)))));
            assert(dims_at(buf@, 0, c, h_age + (h_edu + (h_ic + (h_tx + h_wealth)))));
            assert(buf@.skip(0).len() == buf@.len() - (0));
            assert((h_dims + (h_age + (h_edu + (h_ic + (h_tx + h_wealth))))).len() == h_dims.len() + (h_age + (h_edu + (h_ic + (h_tx + h_wealth)))).len());
            assert(0 + h_dims.len() <= buf@.len());
            lemma_skip_skip(buf@, 0, h_dims.len() as int);
            lemma_skip_concat(h_dims, h_age + (h_edu + (h_ic + (h_tx + h_wealth))));
            assert(sd.1 as int == 0 + h_dims.len());
            assert(buf@.skip(sd.1 as int) == h_age + (h_edu + (h_ic + (h_tx + h_wealth))));
            assert(buf@.skip(sd.1 as int) =~= h_age + (h_edu + (h_ic + (h_tx + h_wealth))));
            assert(age_at(buf@, sd.1 as int, c.age_and_death, h_edu + (h_ic + (h_tx + h_wealth))));
            assert(buf@.skip(sd.1 as int).len() == buf@.len() - (sd.1 as int));
            assert((h_age + (h_edu + (h_ic + (h_tx + h_wealth)))).len() == h_age.len() + (h_edu + (h_ic + (h_tx + h_wealth))).len());
            assert(sd.1 as int + h_age.len() <= buf@.len());
            lemma_skip_skip(buf@, sd.1 as int, h_age.len() as int);
            lemma_skip_concat(h_age, h_edu + (h_ic + (h_tx + h_wealth)));
            assert(sa.1 as int == sd.1 as int + h_age.len());
            assert(buf@.skip(sa.1 as int) == h_edu + (h_ic + (h_tx + h_wealth)));
            assert(buf@.skip(sa.1 as int) =~= h_edu + (h_ic + (h_tx + h_wealth)));
            assert(edu_at(buf@, sa.1 as int, c.education, h_ic + (h_tx + h_wealth)));
            assert(buf@.skip(sa.1 as int).len() == buf@.len() - (sa.1 as int));
            assert((h_edu + (h_ic + (h_tx + h_wealth))).len() == h_edu.len() + (h_ic + (h_tx + h_wealth)).len());
            assert(sa.1 as int + h_edu.len() <= buf@.len());
            lemma_skip_skip(buf@, sa.1 as int, h_edu.len() as int);
            lemma_skip_concat(h_edu, h_ic + (h_tx + h_wealth));
            assert(se.1 as int == sa.1 as int + h_edu.len());
            assert(buf@.skip(se.1 as int) == h_ic + (h_tx + h_wealth));
            assert(buf@.skip(se.1 as int) =~= h_ic + (h_tx + h_wealth));
            assert(ic_at(buf@, se.1 as int, c.income_and_consumption, h_tx + h_wealth));
            assert(buf@.skip(se.1 as int).len() == buf@.len() - (se.1 as int));
            assert((h_ic + (h_tx + h_wealth)).len() == h_ic.len() + (h_tx + h_wealth).len());
            assert(se.1 as int + h_ic.len() <= buf@.len());
            lemma_skip_skip(buf@, se.1 as int, h_ic.len() as int);
            lemma_skip_concat(h_ic, h_tx + h_wealth);
            assert(si.1 as int == se.1 as int + h_ic.len());
            assert(buf@.skip(si.1 as int) == h_tx + h_wealth);
            assert(buf@.skip(si.1 as int) =~= h_tx + (h_wealth));
            assert(tx_at(buf@, si.1 as int, c.transaction, h_wealth));
            assert(buf@.skip(si.1 as int).len() == buf@.len() - (si.1 as int));
            assert((h_tx + (h_wealth)).len() == h_tx.len() + (h_wealth).len());
            assert(si.1 as int + h_tx.len() <= buf@.len());
            lemma_skip_skip(buf@, si.1 as int, h_tx.len() as int);
            lemma_skip_concat(h_tx, h_wealth);
            assert(st.1 as int == si.1 as int + h_tx.len());
            assert(buf@.skip(st.1 as int) == h_wealth);
            assert(buf@.skip(st.1 as int) =~= h_wealth + (Seq::<u8>::empty()));
            assert(wealth_at(buf@, st.1 as int, c.wealth, Seq::<u8>::empty()));
            assert(buf@.skip(st.1 as int).len() == buf@.len() - (st.1 as int));
            assert((h_wealth + (Seq::<u8>::empty())).len() == h_wealth.len() + (Seq::<u8>::empty()).len());
            assert(st.1 as int + h_wealth.len() <= buf@.len());
            lemma_skip_skip(buf@, st.1 as int, h_wealth.len() as int);
            lemma_skip_concat(h_wealth, Seq::<u8>::empty());
            assert(sw.1 as int == st.1 as int + h_wealth.len());
            assert(buf@.skip(sw.1 as int) == Seq::<u8>::empty());
            assert(buf@.skip(sw.1 as int).len() == buf@.len() - (sw.1 as int));
            assert(sw.1 as int == buf@.len());
        }
    }
    if ok && sw.1 == total {
        let cfg = EnvironmentConfig {
            num_agents: sd.0.0,
            num_iterations: sd.0.1,
            length: sd.0.2,
            width: sd.0.3,
            interaction_radius: sd.0.4,
            max_movement: sd.0.5,
            age_and_death: sa.0,
            education: se.0,
            income_and_consumption: si.0,
            transaction: st.0,
            wealth: sw.0,
        };
        if cfg.check_valid() {
            Ok(cfg)
        } else {
            Err(ConfigError::Invalid)
        }
    } else {
        Err(ConfigError::Malformed)
    }
}

} // verus!
