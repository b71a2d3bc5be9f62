//! The metadata parser: the instrument answers a metadata query with a
//! textual calibration block, one `Key: Value` line per setting, closed by a
//! line `END`. This module parses that block into a typed record.
//!
//! The calibration coefficients are decimal literals. The record keeps each
//! one as its validated text: the parser guarantees the text is a number, and
//! the caller converts it into its preferred float type for the calibration
//! arithmetic, which is no concern of this crate.

use vstd::prelude::*;

use crate::Error;
use crate::text::{
    dec_value, is_float_text, is_uint_text, is_valid_utf8, uint_digits, is_float_literal,
    parse_u64, validate_utf8,
};
use crate::types::MeasurementMode;

verus! {

/// The per-range calibration coefficients, indexed by range 0 to 4; each is
/// kept as its decimal text, validated against the float grammar.
#[derive(Debug, Clone)]
pub struct Modifiers {
    /// Shunt resistance per range.
    pub r: Vec<Vec<u8>>,
    /// Quadratic gain coefficient per range.
    pub gs: Vec<Vec<u8>>,
    /// Linear gain coefficient per range.
    pub gi: Vec<Vec<u8>>,
    /// ADC offset per range.
    pub o: Vec<Vec<u8>>,
    /// Supply-voltage coefficient per range.
    pub s: Vec<Vec<u8>>,
    /// Constant offset per range.
    pub i: Vec<Vec<u8>>,
    /// User gain per range.
    pub ug: Vec<Vec<u8>>,
}

/// Ghost mirror of [`Modifiers`]: seven groups of five coefficient texts.
#[verifier::ext_equal]
pub struct ModifiersSpec {
    pub r: Seq<Seq<u8>>,
    pub gs: Seq<Seq<u8>>,
    pub gi: Seq<Seq<u8>>,
    pub o: Seq<Seq<u8>>,
    pub s: Seq<Seq<u8>>,
    pub i: Seq<Seq<u8>>,
    pub ug: Seq<Seq<u8>>,
}

impl ModifiersSpec {
    /// Five texts in every group, each a valid float literal.
    pub open spec fn wf(self) -> bool {
        &&& self.r.len() == 5 && forall|k: int| 0 <= k < 5 ==> is_float_text(#[trigger] self.r[k])
        &&& self.gs.len() == 5 && forall|k: int| 0 <= k < 5 ==> is_float_text(#[trigger] self.gs[k])
        &&& self.gi.len() == 5 && forall|k: int| 0 <= k < 5 ==> is_float_text(#[trigger] self.gi[k])
        &&& self.o.len() == 5 && forall|k: int| 0 <= k < 5 ==> is_float_text(#[trigger] self.o[k])
        &&& self.s.len() == 5 && forall|k: int| 0 <= k < 5 ==> is_float_text(#[trigger] self.s[k])
        &&& self.i.len() == 5 && forall|k: int| 0 <= k < 5 ==> is_float_text(#[trigger] self.i[k])
        &&& self.ug.len() == 5 && forall|k: int| 0 <= k < 5 ==> is_float_text(#[trigger] self.ug[k])
    }
}

/// The texts a vector of byte vectors holds.
pub open spec fn texts_view(v: Seq<Vec<u8>>) -> Seq<Seq<u8>> {
    Seq::new(v.len(), |k: int| v[k]@)
}

impl View for Modifiers {
    type V = ModifiersSpec;

    open spec fn view(&self) -> ModifiersSpec {
        ModifiersSpec {
            r: texts_view(self.r@),
            gs: texts_view(self.gs@),
            gi: texts_view(self.gi@),
            o: texts_view(self.o@),
            s: texts_view(self.s@),
            i: texts_view(self.i@),
            ug: texts_view(self.ug@),
        }
    }
}

/// The text `1031.64`.
pub open spec fn text_r0() -> Seq<u8> {
    seq![0x31u8, 0x30u8, 0x33u8, 0x31u8, 0x2Eu8, 0x36u8, 0x34u8]
}

/// The text `101.65`.
pub open spec fn text_r1() -> Seq<u8> {
    seq![0x31u8, 0x30u8, 0x31u8, 0x2Eu8, 0x36u8, 0x35u8]
}

/// The text `10.15`.
pub open spec fn text_r2() -> Seq<u8> {
    seq![0x31u8, 0x30u8, 0x2Eu8, 0x31u8, 0x35u8]
}

/// The text `0.94`.
pub open spec fn text_r3() -> Seq<u8> {
    seq![0x30u8, 0x2Eu8, 0x39u8, 0x34u8]
}

/// The text `0.043`.
pub open spec fn text_r4() -> Seq<u8> {
    seq![0x30u8, 0x2Eu8, 0x30u8, 0x34u8, 0x33u8]
}

/// Five copies of the text `1`.
pub open spec fn texts_one() -> Seq<Seq<u8>> {
    Seq::new(5, |k: int| seq![0x31u8])
}

/// Five copies of the text `0`.
pub open spec fn texts_zero() -> Seq<Seq<u8>> {
    Seq::new(5, |k: int| seq![0x30u8])
}

/// The default coefficients: nominal shunt resistances, unit gains, zero
/// offsets.
pub open spec fn default_modifiers() -> ModifiersSpec {
    ModifiersSpec {
        r: seq![text_r0(), text_r1(), text_r2(), text_r3(), text_r4()],
        gs: texts_one(),
        gi: texts_one(),
        o: texts_zero(),
        s: texts_zero(),
        i: texts_zero(),
        ug: texts_one(),
    }
}

/// Build one coefficient group of five equal texts.
fn five_copies(b: u8) -> (out: Vec<Vec<u8>>)
    ensures
        texts_view(out@) == Seq::new(5, |k: int| seq![b]),
{
    let mut out: Vec<Vec<u8>> = Vec::new();
    let mut k: usize = 0;
    while k < 5
        invariant
            0 <= k <= 5,
            out@.len() == k,
            texts_view(out@) == Seq::new(k as nat, |q: int| seq![b]),
        decreases 5 - k,
    {
        let mut cell: Vec<u8> = Vec::new();
        cell.push(b);
        proof {
            assert(cell@ =~= seq![b]);
        }
        let ghost prev = out@;
        out.push(cell);
        proof {
            assert forall|q: int| 0 <= q < k + 1 implies out@[q]@ == seq![b] by {
                if q < k {
                    assert(texts_view(prev)[q] == prev[q]@);
                    assert(texts_view(prev)[q] == seq![b]);
                } else {
                    assert(out@[q]@ == seq![b]);
                }
            }
            assert(texts_view(out@) =~= Seq::new((k + 1) as nat, |q: int| seq![b]));
        }
        k = k + 1;
    }
    proof {
        assert(texts_view(out@) =~= Seq::new(5, |q: int| seq![b]));
    }
    out
}

impl Default for Modifiers {
    /// The default coefficients.
    fn default() -> (out: Self)
        ensures
            out@ == default_modifiers(),
            out@.wf(),
    {
        let r0: Vec<u8> = vec![0x31, 0x30, 0x33, 0x31, 0x2E, 0x36, 0x34];
        let r1: Vec<u8> = vec![0x31, 0x30, 0x31, 0x2E, 0x36, 0x35];
        let r2: Vec<u8> = vec![0x31, 0x30, 0x2E, 0x31, 0x35];
        let r3: Vec<u8> = vec![0x30, 0x2E, 0x39, 0x34];
        let r4: Vec<u8> = vec![0x30, 0x2E, 0x30, 0x34, 0x33];
        let r: Vec<Vec<u8>> = vec![r0, r1, r2, r3, r4];
        let out = Modifiers {
            r,
            gs: five_copies(0x31),
            gi: five_copies(0x31),
            o: five_copies(0x30),
            s: five_copies(0x30),
            i: five_copies(0x30),
            ug: five_copies(0x31),
        };
        proof {
            assert(out@.r =~~= default_modifiers().r);
            assert(out@.gs =~~= default_modifiers().gs);
            assert(out@.gi =~~= default_modifiers().gi);
            assert(out@.o =~~= default_modifiers().o);
            assert(out@.s =~~= default_modifiers().s);
            assert(out@.i =~~= default_modifiers().i);
            assert(out@.ug =~~= default_modifiers().ug);
            lemma_default_modifiers_wf();
        }
        out
    }
}

/// The default coefficients are well-formed texts.
pub proof fn lemma_default_modifiers_wf()
    ensures
        default_modifiers().wf(),
{
    let m = default_modifiers();
    crate::text::lemma_decimal_is_float(text_r0(), 4);
    crate::text::lemma_decimal_is_float(text_r1(), 3);
    crate::text::lemma_decimal_is_float(text_r2(), 2);
    crate::text::lemma_decimal_is_float(text_r3(), 1);
    crate::text::lemma_decimal_is_float(text_r4(), 1);
    crate::text::lemma_digits_are_float(seq![0x31u8]);
    crate::text::lemma_digits_are_float(seq![0x30u8]);
    assert forall|k: int| 0 <= k < 5 implies is_float_text(#[trigger] m.r[k]) by {
        assert(m.r[0] == text_r0() && m.r[1] == text_r1() && m.r[2] == text_r2() && m.r[3]
            == text_r3() && m.r[4] == text_r4());
    }
}

/// Parsed device metadata.
#[derive(Debug, Clone)]
pub struct Metadata {
    /// Calibration coefficients.
    pub modifiers: Modifiers,
    /// Whether the device was calibrated.
    pub calibrated: bool,
    /// Device source-voltage setting, in millivolts.
    pub vdd: u16,
    /// Hardware revision.
    pub hw: u32,
    /// Device measurement mode.
    pub mode: MeasurementMode,
    /// Current-measurement amplifier setting.
    pub ia: u32,
}

/// Ghost mirror of [`Metadata`].
#[verifier::ext_equal]
pub struct MetadataSpec {
    pub modifiers: ModifiersSpec,
    pub calibrated: bool,
    pub vdd: u16,
    pub hw: u32,
    pub mode: MeasurementMode,
    pub ia: u32,
}

impl MetadataSpec {
    /// Well-formedness: the coefficient groups are complete and numeric.
    pub open spec fn wf(self) -> bool {
        self.modifiers.wf()
    }
}

impl View for Metadata {
    type V = MetadataSpec;

    open spec fn view(&self) -> MetadataSpec {
        MetadataSpec {
            modifiers: self.modifiers@,
            calibrated: self.calibrated,
            vdd: self.vdd,
            hw: self.hw,
            mode: self.mode,
            ia: self.ia,
        }
    }
}

/// The metadata record a fresh session starts from: default coefficients,
/// not calibrated, everything at zero, source mode.
pub open spec fn default_metadata() -> MetadataSpec {
    MetadataSpec {
        modifiers: default_modifiers(),
        calibrated: false,
        vdd: 0u16,
        hw: 0u32,
        mode: MeasurementMode::Source,
        ia: 0u32,
    }
}

impl Default for Metadata {
    /// The record parsing starts from.
    fn default() -> (out: Self)
        ensures
            out@ == default_metadata(),
            out@.wf(),
    {
        Metadata {
            modifiers: Modifiers::default(),
            calibrated: false,
            vdd: 0,
            hw: 0,
            mode: MeasurementMode::Source,
            ia: 0,
        }
    }
}

/// Index of the first `\n` in `b`, or `b.len()` when there is none.
pub open spec fn first_nl_index(b: Seq<u8>) -> int
    decreases b.len(),
{
    if b.len() == 0 {
        0
    } else if b[0] == 0x0A {
        0
    } else {
        1 + first_nl_index(b.skip(1))
    }
}

/// What [`first_nl_index`] finds: an in-bounds `\n` with none before it, or
/// the text's end with no `\n` anywhere.
pub proof fn lemma_first_nl_index(b: Seq<u8>)
    ensures
        0 <= first_nl_index(b) <= b.len(),
        first_nl_index(b) < b.len() ==> b[first_nl_index(b)] == 0x0A,
        forall|j: int| 0 <= j < first_nl_index(b) ==> b[j] != 0x0A,
    decreases b.len(),
{
    if b.len() == 0 {
    } else if b[0] == 0x0A {
    } else {
        lemma_first_nl_index(b.skip(1));
        let f = first_nl_index(b);
        assert(forall|j: int| 0 <= j < f - 1 ==> b.skip(1)[j] == b[j + 1]);
        if f < b.len() {
            assert(b.skip(1)[f - 1] == b[f]);
        }
        assert forall|j: int| 0 <= j < f implies b[j] != 0x0A by {
            if j > 0 {
                assert(b.skip(1)[j - 1] == b[j]);
            }
        }
    }
}

/// The index where [`first_nl_index`] lands is pinned by what stands before
/// and at it.
pub proof fn lemma_first_nl_index_is(b: Seq<u8>, k: int)
    requires
        0 <= k <= b.len(),
        forall|j: int| 0 <= j < k ==> b[j] != 0x0A,
        k == b.len() || b[k] == 0x0A,
    ensures
        first_nl_index(b) == k,
{
    lemma_first_nl_index(b);
    let f = first_nl_index(b);
    if f < k {
        assert(b[f] != 0x0A);
        assert(b[f] == 0x0A);
    } else if f > k {
        assert(k < b.len());
        assert(b[k] != 0x0A);
    }
}

/// One `\r`, if it ends the line piece, is stripped.
pub open spec fn strip_cr(l: Seq<u8>) -> Seq<u8> {
    if l.len() > 0 && l.last() == 0x0D {
        l.drop_last()
    } else {
        l
    }
}

/// The lines of `b`: pieces between `\n` bytes, each with one trailing `\r`
/// stripped; a final piece with no `\n` after it is kept whole, and a
/// trailing `\n` opens no further line.
pub open spec fn spec_lines(b: Seq<u8>) -> Seq<Seq<u8>>
    decreases b.len(),
{
    if b.len() == 0 {
        Seq::empty()
    } else {
        let i = first_nl_index(b);
        if 0 <= i < b.len() {
            seq![strip_cr(b.take(i))] + spec_lines(b.skip(i + 1))
        } else {
            seq![b]
        }
    }
}

/// A recognized metadata key.
pub enum MetaKey {
    /// `Calibrated`.
    Calibrated,
    /// `R0` to `R4`.
    R(int),
    /// `GS0` to `GS4`.
    Gs(int),
    /// `GI0` to `GI4`.
    Gi(int),
    /// `O0` to `O4`.
    O(int),
    /// `S0` to `S4`.
    S(int),
    /// `I0` to `I4`.
    I(int),
    /// `UG0` to `UG4`.
    Ug(int),
    /// `VDD`.
    Vdd,
    /// `HW`.
    Hw,
    /// `mode`.
    Mode,
    /// `IA`.
    Ia,
}

/// The letters `Calibrated`.
pub open spec fn calibrated_text() -> Seq<u8> {
    seq![0x43u8, 0x61u8, 0x6Cu8, 0x69u8, 0x62u8, 0x72u8, 0x61u8, 0x74u8, 0x65u8, 0x64u8]
}

/// The letters `VDD`.
pub open spec fn vdd_text() -> Seq<u8> {
    seq![0x56u8, 0x44u8, 0x44u8]
}

/// The letters `HW`.
pub open spec fn hw_text() -> Seq<u8> {
    seq![0x48u8, 0x57u8]
}

/// The letters `mode`.
pub open spec fn mode_text() -> Seq<u8> {
    seq![0x6Du8, 0x6Fu8, 0x64u8, 0x65u8]
}

/// The letters `IA`.
pub open spec fn ia_text() -> Seq<u8> {
    seq![0x49u8, 0x41u8]
}

/// The letters `END`.
pub open spec fn end_text() -> Seq<u8> {
    seq![0x45u8, 0x4Eu8, 0x44u8]
}

/// A range digit `0` to `4`.
pub open spec fn is_range_digit(b: u8) -> bool {
    0x30 <= b <= 0x34
}

/// The range a digit byte names.
pub open spec fn range_of_digit(b: u8) -> int {
    b - 0x30
}

/// Classify a key text; `None` for an unrecognized key.
pub open spec fn key_of(k: Seq<u8>) -> Option<MetaKey> {
    if k == calibrated_text() {
        Some(MetaKey::Calibrated)
    } else if k.len() == 2 && k[0] == 0x52 && is_range_digit(k[1]) {
        Some(MetaKey::R(range_of_digit(k[1])))
    } else if k.len() == 3 && k[0] == 0x47 && k[1] == 0x53 && is_range_digit(k[2]) {
        Some(MetaKey::Gs(range_of_digit(k[2])))
    } else if k.len() == 3 && k[0] == 0x47 && k[1] == 0x49 && is_range_digit(k[2]) {
        Some(MetaKey::Gi(range_of_digit(k[2])))
    } else if k.len() == 2 && k[0] == 0x4F && is_range_digit(k[1]) {
        Some(MetaKey::O(range_of_digit(k[1])))
    } else if k.len() == 2 && k[0] == 0x53 && is_range_digit(k[1]) {
        Some(MetaKey::S(range_of_digit(k[1])))
    } else if k.len() == 2 && k[0] == 0x49 && is_range_digit(k[1]) {
        Some(MetaKey::I(range_of_digit(k[1])))
    } else if k.len() == 3 && k[0] == 0x55 && k[1] == 0x47 && is_range_digit(k[2]) {
        Some(MetaKey::Ug(range_of_digit(k[2])))
    } else if k == vdd_text() {
        Some(MetaKey::Vdd)
    } else if k == hw_text() {
        Some(MetaKey::Hw)
    } else if k == mode_text() {
        Some(MetaKey::Mode)
    } else if k == ia_text() {
        Some(MetaKey::Ia)
    } else {
        None
    }
}

/// Index of the first `": "` in `l`, or at least `l.len() - 1` when there
/// is none.
pub open spec fn kv_index(l: Seq<u8>) -> int
    decreases l.len(),
{
    if l.len() < 2 {
        l.len() as int
    } else if l[0] == 0x3A && l[1] == 0x20 {
        0
    } else {
        1 + kv_index(l.skip(1))
    }
}

/// Whether `l` splits into a key and a value around `": "`.
pub open spec fn has_kv(l: Seq<u8>) -> bool {
    kv_index(l) + 2 <= l.len()
}

/// What [`kv_index`] finds: the first `": "`, with none before it.
pub proof fn lemma_kv_index(l: Seq<u8>)
    ensures
        0 <= kv_index(l) <= l.len(),
        has_kv(l) ==> l[kv_index(l)] == 0x3A && l[kv_index(l) + 1] == 0x20,
        forall|j: int|
            0 <= j < kv_index(l) && j + 2 <= l.len() ==> !((#[trigger] l[j]) == 0x3A && l[j + 1]
                == 0x20),
    decreases l.len(),
{
    if l.len() < 2 {
    } else if l[0] == 0x3A && l[1] == 0x20 {
    } else {
        lemma_kv_index(l.skip(1));
        let f = kv_index(l);
        assert(forall|j: int| 0 <= j < l.len() - 1 ==> l.skip(1)[j] == l[j + 1]);
        if f + 2 <= l.len() {
            assert(l.skip(1)[f - 1] == l[f] && l.skip(1)[f] == l[f + 1]);
        }
        assert forall|j: int|
            0 <= j < f && j + 2 <= l.len() implies !((#[trigger] l[j]) == 0x3A && l[j + 1] == 0x20) by {
            if j > 0 {
                assert(l.skip(1)[j - 1] == l[j] && l.skip(1)[j] == l[j + 1]);
            }
        }
    }
}

/// The index where [`kv_index`] lands is pinned by what stands before and
/// at it.
pub proof fn lemma_kv_index_is(l: Seq<u8>, k: int)
    requires
        0 <= k,
        k + 2 <= l.len(),
        l[k] == 0x3A && l[k + 1] == 0x20,
        forall|j: int| 0 <= j < k ==> !((#[trigger] l[j]) == 0x3A && l[j + 1] == 0x20),
    ensures
        kv_index(l) == k,
{
    lemma_kv_index(l);
    let f = kv_index(l);
    if f < k {
        assert(!(l[f] == 0x3A && l[f + 1] == 0x20));
        assert(false);
    } else if f > k {
        assert(!(l[k] == 0x3A && l[k + 1] == 0x20));
        assert(false);
    }
}

/// When no `": "` occurs anywhere, [`kv_index`] finds no split.
pub proof fn lemma_kv_index_none(l: Seq<u8>)
    requires
        forall|j: int| 0 <= j && j + 2 <= l.len() ==> !((#[trigger] l[j]) == 0x3A && l[j + 1]
            == 0x20),
    ensures
        !has_kv(l),
{
    lemma_kv_index(l);
    if has_kv(l) {
        assert(!(l[kv_index(l)] == 0x3A && l[kv_index(l) + 1] == 0x20));
        assert(false);
    }
}

/// Apply one recognized key's value to the record; `None` when the value
/// does not parse.
pub open spec fn apply_value(m: MetadataSpec, mk: MetaKey, v: Seq<u8>) -> Option<MetadataSpec> {
    match mk {
        MetaKey::Calibrated => Some(MetadataSpec { calibrated: v != seq![0x30u8], ..m }),
        MetaKey::R(k) => if is_float_text(v) {
            Some(
                MetadataSpec {
                    modifiers: ModifiersSpec { r: m.modifiers.r.update(k, v), ..m.modifiers },
                    ..m
                },
            )
        } else {
            None
        },
        MetaKey::Gs(k) => if is_float_text(v) {
            Some(
                MetadataSpec {
                    modifiers: ModifiersSpec { gs: m.modifiers.gs.update(k, v), ..m.modifiers },
                    ..m
                },
            )
        } else {
            None
        },
        MetaKey::Gi(k) => if is_float_text(v) {
            Some(
                MetadataSpec {
                    modifiers: ModifiersSpec { gi: m.modifiers.gi.update(k, v), ..m.modifiers },
                    ..m
                },
            )
        } else {
            None
        },
        MetaKey::O(k) => if is_float_text(v) {
            Some(
                MetadataSpec {
                    modifiers: ModifiersSpec { o: m.modifiers.o.update(k, v), ..m.modifiers },
                    ..m
                },
            )
        } else {
            None
        },
        MetaKey::S(k) => if is_float_text(v) {
            Some(
                MetadataSpec {
                    modifiers: ModifiersSpec { s: m.modifiers.s.update(k, v), ..m.modifiers },
                    ..m
                },
            )
        } else {
            None
        },
        MetaKey::I(k) => if is_float_text(v) {
            Some(
                MetadataSpec {
                    modifiers: ModifiersSpec { i: m.modifiers.i.update(k, v), ..m.modifiers },
                    ..m
                },
            )
        } else {
            None
        },
        MetaKey::Ug(k) => if is_float_text(v) {
            Some(
                MetadataSpec {
                    modifiers: ModifiersSpec { ug: m.modifiers.ug.update(k, v), ..m.modifiers },
                    ..m
                },
            )
        } else {
            None
        },
        MetaKey::Vdd => if is_uint_text(v) && dec_value(uint_digits(v)) <= u16::MAX {
            Some(MetadataSpec { vdd: dec_value(uint_digits(v)) as u16, ..m })
        } else {
            None
        },
        MetaKey::Hw => if is_uint_text(v) && dec_value(uint_digits(v)) <= u32::MAX {
            Some(MetadataSpec { hw: dec_value(uint_digits(v)) as u32, ..m })
        } else {
            None
        },
        MetaKey::Mode => if is_uint_text(v) && (dec_value(uint_digits(v)) == 1 || dec_value(
            uint_digits(v),
        ) == 2) {
            Some(
                MetadataSpec {
                    mode: if dec_value(uint_digits(v)) == 1 {
                        MeasurementMode::Ampere
                    } else {
                        MeasurementMode::Source
                    },
                    ..m
                },
            )
        } else {
            None
        },
        MetaKey::Ia => if is_uint_text(v) && dec_value(uint_digits(v)) <= u32::MAX {
            Some(MetadataSpec { ia: dec_value(uint_digits(v)) as u32, ..m })
        } else {
            None
        },
    }
}

/// Apply one line to the record: split it around the first `": "`, classify
/// the key and parse the value. `None` when the line has no split, an
/// unrecognized key, or a bad value.
pub open spec fn apply_line(m: MetadataSpec, line: Seq<u8>) -> Option<MetadataSpec> {
    if has_kv(line) {
        let key = line.take(kv_index(line));
        let value = line.skip(kv_index(line) + 2);
        match key_of(key) {
            Some(mk) => apply_value(m, mk, value),
            None => None,
        }
    } else {
        None
    }
}

/// The outcome of a metadata parse.
pub enum ParseOutcome {
    /// The block parsed into this record.
    Parsed(MetadataSpec),
    /// A line (or, before any line is read, the whole block) was rejected.
    Rejected(Seq<u8>),
    /// The block is not UTF-8.
    NotText,
}

/// Fold the lines into the record: a `END` line ends parsing, and must be
/// the last line; every other line must apply.
pub open spec fn parse_lines(m: MetadataSpec, lines: Seq<Seq<u8>>) -> ParseOutcome
    decreases lines.len(),
{
    if lines.len() == 0 {
        ParseOutcome::Parsed(m)
    } else if lines[0] == end_text() {
        if lines.len() == 1 {
            ParseOutcome::Parsed(m)
        } else {
            ParseOutcome::Rejected(lines[1])
        }
    } else {
        match apply_line(m, lines[0]) {
            Some(m2) => parse_lines(m2, lines.skip(1)),
            None => ParseOutcome::Rejected(lines[0]),
        }
    }
}

/// The block's last four bytes must spell `END` and a newline.
pub open spec fn ends_with_end_line(b: Seq<u8>) -> bool {
    b.len() >= 4 && b[b.len() - 4] == 0x45 && b[b.len() - 3] == 0x4E && b[b.len() - 2] == 0x44
        && b[b.len() - 1] == 0x0A
}

/// The whole parse: UTF-8 validity, the `END` terminator, then the line
/// fold from the default record.
pub open spec fn spec_from_bytes(b: Seq<u8>) -> ParseOutcome {
    if !is_valid_utf8(b) {
        ParseOutcome::NotText
    } else if !ends_with_end_line(b) {
        ParseOutcome::Rejected(b)
    } else {
        parse_lines(default_metadata(), spec_lines(b))
    }
}

/// Copy `s[from..to]` into a fresh vector.
fn copy_range(s: &[u8], from: usize, to: usize) -> (out: Vec<u8>)
    requires
        from <= to <= s@.len(),
    ensures
        out@ == s@.subrange(from as int, to as int),
{
    let mut out: Vec<u8> = Vec::new();
    let mut i = from;
    proof {
        assert(out@ =~= s@.subrange(from as int, from as int));
    }
    while i < to
        invariant
            from <= i <= to <= s@.len(),
            out@ == s@.subrange(from as int, i as int),
        decreases to - i,
    {
        out.push(s[i]);
        proof {
            assert(s@.subrange(from as int, i + 1) =~= s@.subrange(from as int, i as int).push(
                s@[i as int],
            ));
        }
        i = i + 1;
    }
    out
}

/// Find the first `\n` at or after `from`, or the buffer's end.
fn find_nl(s: &[u8], from: usize) -> (r: usize)
    requires
        from <= s@.len(),
    ensures
        from <= r <= s@.len(),
        r - from == first_nl_index(s@.skip(from as int)),
        r < s@.len() ==> s@[r as int] == 0x0A,
        forall|j: int| from <= j < r ==> s@[j] != 0x0A,
{
    let n = s.len();
    let mut i = from;
    while i < n
        invariant
            from <= i <= n,
            n == s@.len(),
            forall|j: int| from <= j < i ==> s@[j] != 0x0A,
        ensures
            from <= i <= n,
            i == n || s@[i as int] == 0x0A,
            forall|j: int| from <= j < i ==> s@[j] != 0x0A,
        decreases n - i,
    {
        if s[i] == 0x0A {
            break ;
        }
        i = i + 1;
    }
    proof {
        let t = s@.skip(from as int);
        assert(forall|q: int| 0 <= q < t.len() ==> t[q] == s@[from + q]);
        lemma_first_nl_index_is(t, i - from);
    }
    i
}

/// Store one coefficient text into its group.
fn set_coeff(g: &mut Vec<Vec<u8>>, idx: usize, v: Vec<u8>)
    requires
        idx < old(g)@.len(),
    ensures
        texts_view(final(g)@) == texts_view(old(g)@).update(idx as int, v@),
{
    let ghost prev = g@;
    let ghost vv = v@;
    g[idx] = v;
    proof {
        assert forall|q: int| 0 <= q < g@.len() implies texts_view(g@)[q] == texts_view(
            prev,
        ).update(idx as int, vv)[q] by {
            assert(texts_view(g@)[q] == g@[q]@);
            if q != idx {
                assert(g@[q] == prev[q]);
                assert(texts_view(prev)[q] == prev[q]@);
            }
        }
        assert(texts_view(g@) =~= texts_view(prev).update(idx as int, vv));
    }
}

/// The coefficient group a key letter names.
#[derive(Debug, Clone, Copy)]
enum CoeffGroup {
    R,
    Gs,
    Gi,
    O,
    S,
    I,
    Ug,
}

impl CoeffGroup {
    /// The metadata key for this group at the given range.
    spec fn key(self, idx: int) -> MetaKey {
        match self {
            CoeffGroup::R => MetaKey::R(idx),
            CoeffGroup::Gs => MetaKey::Gs(idx),
            CoeffGroup::Gi => MetaKey::Gi(idx),
            CoeffGroup::O => MetaKey::O(idx),
            CoeffGroup::S => MetaKey::S(idx),
            CoeffGroup::I => MetaKey::I(idx),
            CoeffGroup::Ug => MetaKey::Ug(idx),
        }
    }
}

/// Validate one coefficient value and store it in its group.
fn apply_coeff(m: &mut Metadata, g: CoeffGroup, idx: usize, value: &[u8]) -> (ok: bool)
    requires
        old(m)@.wf(),
        idx < 5,
    ensures
        ok == (apply_value(old(m)@, g.key(idx as int), value@) is Some),
        ok ==> Some(final(m)@) == apply_value(old(m)@, g.key(idx as int), value@),
        !ok ==> final(m)@ == old(m)@,
        final(m)@.wf(),
{
    if !is_float_literal(value) {
        return false;
    }
    let v = copy_range(value, 0, value.len());
    proof {
        assert(v@ =~= value@);
    }
    let ghost target = apply_value(old(m)@, g.key(idx as int), value@);
    match g {
        CoeffGroup::R => {
            set_coeff(&mut m.modifiers.r, idx, v);
            proof {
                assert(m@ =~~= target.unwrap());
                assert forall|k: int| 0 <= k < 5 implies is_float_text(
                    #[trigger] m@.modifiers.r[k],
                ) by {
                    if k != idx {
                        assert(m@.modifiers.r[k] == old(m)@.modifiers.r[k]);
                    }
                }
            }
        },
        CoeffGroup::Gs => {
            set_coeff(&mut m.modifiers.gs, idx, v);
            proof {
                assert(m@ =~~= target.unwrap());
                assert forall|k: int| 0 <= k < 5 implies is_float_text(
                    #[trigger] m@.modifiers.gs[k],
                ) by {
                    if k != idx {
                        assert(m@.modifiers.gs[k] == old(m)@.modifiers.gs[k]);
                    }
                }
            }
        },
        CoeffGroup::Gi => {
            set_coeff(&mut m.modifiers.gi, idx, v);
            proof {
                assert(m@ =~~= target.unwrap());
                assert forall|k: int| 0 <= k < 5 implies is_float_text(
                    #[trigger] m@.modifiers.gi[k],
                ) by {
                    if k != idx {
                        assert(m@.modifiers.gi[k] == old(m)@.modifiers.gi[k]);
                    }
                }
            }
        },
        CoeffGroup::O => {
            set_coeff(&mut m.modifiers.o, idx, v);
            proof {
                assert(m@ =~~= target.unwrap());
                assert forall|k: int| 0 <= k < 5 implies is_float_text(
                    #[trigger] m@.modifiers.o[k],
                ) by {
                    if k != idx {
                        assert(m@.modifiers.o[k] == old(m)@.modifiers.o[k]);
                    }
                }
            }
        },
        CoeffGroup::S => {
            set_coeff(&mut m.modifiers.s, idx, v);
            proof {
                assert(m@ =~~= target.unwrap());
                assert forall|k: int| 0 <= k < 5 implies is_float_text(
                    #[trigger] m@.modifiers.s[k],
                ) by {
                    if k != idx {
                        assert(m@.modifiers.s[k] == old(m)@.modifiers.s[k]);
                    }
                }
            }
        },
        CoeffGroup::I => {
            set_coeff(&mut m.modifiers.i, idx, v);
            proof {
                assert(m@ =~~= target.unwrap());
                assert forall|k: int| 0 <= k < 5 implies is_float_text(
                    #[trigger] m@.modifiers.i[k],
                ) by {
                    if k != idx {
                        assert(m@.modifiers.i[k] == old(m)@.modifiers.i[k]);
                    }
                }
            }
        },
        CoeffGroup::Ug => {
            set_coeff(&mut m.modifiers.ug, idx, v);
            proof {
                assert(m@ =~~= target.unwrap());
                assert forall|k: int| 0 <= k < 5 implies is_float_text(
                    #[trigger] m@.modifiers.ug[k],
                ) by {
                    if k != idx {
                        assert(m@.modifiers.ug[k] == old(m)@.modifiers.ug[k]);
                    }
                }
            }
        },
    }
    true
}

/// Apply one line to the record under construction. On `true` the record
/// took the line's value; on `false` the line is rejected and the record is
/// unchanged.
#[verifier::rlimit(100)]
fn apply_line_exec(m: &mut Metadata, line: &[u8]) -> (ok: bool)
    requires
        old(m)@.wf(),
    ensures
        ok == (apply_line(old(m)@, line@) is Some),
        ok ==> Some(final(m)@) == apply_line(old(m)@, line@),
        !ok ==> final(m)@ == old(m)@,
        final(m)@.wf(),
{
    let n = line.len();
    // Find the first `": "`.
    let mut j: usize = 0;
    let mut found = false;
    while n - j >= 2
        invariant_except_break
            !found,
        invariant
            0 <= j,
            j <= n,
            n == line@.len(),
            forall|q: int|
                0 <= q < j ==> !((#[trigger] line@[q]) == 0x3A && line@[q + 1] == 0x20),
        ensures
            0 <= j,
            j <= n,
            n == line@.len(),
            forall|q: int|
                0 <= q < j ==> !((#[trigger] line@[q]) == 0x3A && line@[q + 1] == 0x20),
            found ==> j + 2 <= n && line@[j as int] == 0x3A && line@[j as int + 1] == 0x20,
            !found ==> j + 2 > n,
        decreases n - j,
    {
        if line[j] == 0x3A && line[j + 1] == 0x20 {
            found = true;
            break ;
        }
        j = j + 1;
    }
    if !found {
        proof {
            lemma_kv_index_none(line@);
        }
        return false;
    }
    proof {
        lemma_kv_index_is(line@, j as int);
    }
    let key = &line[0..j];
    let value = &line[j + 2..n];
    proof {
        assert(key@ =~= line@.take(j as int));
        assert(value@ =~= line@.skip(j as int + 2));
        assert(has_kv(line@));
    }
    let klen = key.len();
    if klen == 10 && key[0] == 0x43 && key[1] == 0x61 && key[2] == 0x6C && key[3] == 0x69 && key[4]
        == 0x62 && key[5] == 0x72 && key[6] == 0x61 && key[7] == 0x74 && key[8] == 0x65 && key[9]
        == 0x64 {
        // Calibrated: `0` means not calibrated, anything else means it is.
        proof {
            assert(key@ =~= calibrated_text());
        }
        let is_zero = value.len() == 1 && value[0] == 0x30;
        proof {
            if is_zero {
                assert(value@ =~= seq![0x30u8]);
            } else if value@ == seq![0x30u8] {
                assert(value@.len() == 1 && value@[0] == 0x30);
            }
        }
        m.calibrated = !is_zero;
        proof {
            assert(m@ =~~= apply_value(old(m)@, MetaKey::Calibrated, value@).unwrap());
        }
        return true;
    }
    if klen == 2 && key[0] == 0x52 && 0x30 <= key[1] && key[1] <= 0x34 {
        proof {
            assert(key_of(key@) == Some(MetaKey::R(range_of_digit(key@[1]))));
        }
        return apply_coeff(m, CoeffGroup::R, (key[1] - 0x30) as usize, value);
    }
    if klen == 3 && key[0] == 0x47 && key[1] == 0x53 && 0x30 <= key[2] && key[2] <= 0x34 {
        proof {
            assert(key_of(key@) == Some(MetaKey::Gs(range_of_digit(key@[2]))));
        }
        return apply_coeff(m, CoeffGroup::Gs, (key[2] - 0x30) as usize, value);
    }
    if klen == 3 && key[0] == 0x47 && key[1] == 0x49 && 0x30 <= key[2] && key[2] <= 0x34 {
        proof {
            assert(key_of(key@) == Some(MetaKey::Gi(range_of_digit(key@[2]))));
        }
        return apply_coeff(m, CoeffGroup::Gi, (key[2] - 0x30) as usize, value);
    }
    if klen == 2 && key[0] == 0x4F && 0x30 <= key[1] && key[1] <= 0x34 {
        proof {
            assert(key_of(key@) == Some(MetaKey::O(range_of_digit(key@[1]))));
        }
        return apply_coeff(m, CoeffGroup::O, (key[1] - 0x30) as usize, value);
    }
    if klen == 2 && key[0] == 0x53 && 0x30 <= key[1] && key[1] <= 0x34 {
        proof {
            assert(key_of(key@) == Some(MetaKey::S(range_of_digit(key@[1]))));
        }
        return apply_coeff(m, CoeffGroup::S, (key[1] - 0x30) as usize, value);
    }
    if klen == 2 && key[0] == 0x49 && 0x30 <= key[1] && key[1] <= 0x34 {
        proof {
            assert(key_of(key@) == Some(MetaKey::I(range_of_digit(key@[1]))));
        }
        return apply_coeff(m, CoeffGroup::I, (key[1] - 0x30) as usize, value);
    }
    if klen == 3 && key[0] == 0x55 && key[1] == 0x47 && 0x30 <= key[2] && key[2] <= 0x34 {
        proof {
            assert(key_of(key@) == Some(MetaKey::Ug(range_of_digit(key@[2]))));
        }
        return apply_coeff(m, CoeffGroup::Ug, (key[2] - 0x30) as usize, value);
    }
    if klen == 3 && key[0] == 0x56 && key[1] == 0x44 && key[2] == 0x44 {
        // VDD, a u16.
        proof {
            assert(key@ =~= vdd_text());
        }
        match parse_u64(value) {
            Some(x) => {
                if x <= 0xFFFF {
                    m.vdd = x as u16;
                    proof {
                        assert(m@ =~~= apply_value(old(m)@, MetaKey::Vdd, value@).unwrap());
                    }
                    return true;
                } else {
                    proof {
                        crate::text::lemma_dec_value_nonneg(uint_digits(value@));
                    }
                    return false;
                }
            },
            None => {
                return false;
            },
        }
    }
    if klen == 2 && key[0] == 0x48 && key[1] == 0x57 {
        // HW, a u32.
        proof {
            assert(key@ =~= hw_text());
        }
        match parse_u64(value) {
            Some(x) => {
                if x <= 0xFFFF_FFFF {
                    m.hw = x as u32;
                    proof {
                        assert(m@ =~~= apply_value(old(m)@, MetaKey::Hw, value@).unwrap());
                    }
                    return true;
                } else {
                    return false;
                }
            },
            None => {
                return false;
            },
        }
    }
    if klen == 4 && key[0] == 0x6D && key[1] == 0x6F && key[2] == 0x64 && key[3] == 0x65 {
        // mode: 1 for ammeter, 2 for source meter.
        proof {
            assert(key@ =~= mode_text());
        }
        match parse_u64(value) {
            Some(x) => {
                if x == 1 || x == 2 {
                    m.mode = if x == 1 {
                        MeasurementMode::Ampere
                    } else {
                        MeasurementMode::Source
                    };
                    proof {
                        assert(m@ =~~= apply_value(old(m)@, MetaKey::Mode, value@).unwrap());
                    }
                    return true;
                } else {
                    return false;
                }
            },
            None => {
                return false;
            },
        }
    }
    if klen == 2 && key[0] == 0x49 && key[1] == 0x41 {
        // IA, a u32.
        proof {
            assert(key@ =~= ia_text());
        }
        match parse_u64(value) {
            Some(x) => {
                if x <= 0xFFFF_FFFF {
                    m.ia = x as u32;
                    proof {
                        assert(m@ =~~= apply_value(old(m)@, MetaKey::Ia, value@).unwrap());
                    }
                    return true;
                } else {
                    return false;
                }
            },
            None => {
                return false;
            },
        }
    }
    proof {
        assert(key_of(key@) is None);
    }
    false
}


impl Metadata {
    /// Parse the instrument's metadata block.
    ///
    /// The block must be UTF-8 and must end with a line `END`; every other
    /// line must be a recognized `Key: Value` pair whose value parses. The
    /// whole outcome, record and errors alike, is pinned by
    /// [`spec_from_bytes`].
    #[verifier::rlimit(100)]
    pub fn from_bytes(bytes: &[u8]) -> (r: Result<Metadata, Error>)
        ensures
            match r {
                Ok(m) => spec_from_bytes(bytes@) == ParseOutcome::Parsed(m@) && m@.wf(),
                Err(Error::Utf8) => spec_from_bytes(bytes@) == ParseOutcome::NotText,
                Err(Error::Parse(l)) => spec_from_bytes(bytes@) == ParseOutcome::Rejected(l@),
            },
    {
        let n = bytes.len();
        if !validate_utf8(bytes) {
            return Err(Error::Utf8);
        }
        if !(n >= 4 && bytes[n - 4] == 0x45 && bytes[n - 3] == 0x4E && bytes[n - 2] == 0x44
            && bytes[n - 1] == 0x0A) {
            proof {
                assert(bytes@.subrange(0, n as int) =~= bytes@);
            }
            return Err(Error::Parse(copy_range(bytes, 0, n)));
        }
        let mut m = Metadata::default();
        let mut p: usize = 0;
        proof {
            assert(bytes@.skip(0) =~= bytes@);
        }
        while p < n
            invariant
                0 <= p <= n,
                n == bytes@.len(),
                is_valid_utf8(bytes@),
                ends_with_end_line(bytes@),
                m@.wf(),
                parse_lines(default_metadata(), spec_lines(bytes@)) == parse_lines(
                    m@,
                    spec_lines(bytes@.skip(p as int)),
                ),
            decreases n - p,
        {
            let ghost rest = bytes@.skip(p as int);
            let q = find_nl(bytes, p);
            proof {
                assert(rest.len() == n - p);
                assert(forall|t: int| 0 <= t < rest.len() ==> rest[t] == bytes@[p + t]);
                if q == n {
                    assert(bytes@[n - 1] != 0x0A);
                    assert(false);
                }
            }
            let line_end = if q > p && bytes[q - 1] == 0x0D {
                q - 1
            } else {
                q
            };
            let ghost lines = spec_lines(rest);
            let ghost line0 = bytes@.subrange(p as int, line_end as int);
            proof {
                assert(first_nl_index(rest) == q - p);
                assert(rest.len() > 0);
                assert(0 <= q - p < rest.len());
                assert(rest.take(q - p) =~= bytes@.subrange(p as int, q as int));
                if q > p && bytes@[q - 1] == 0x0D {
                    assert(rest.take(q - p).last() == 0x0D);
                    assert(strip_cr(rest.take(q - p)) =~= line0);
                } else {
                    assert(strip_cr(rest.take(q - p)) =~= line0);
                }
                assert(lines == seq![strip_cr(rest.take(q - p))] + spec_lines(
                    rest.skip(q - p + 1),
                ));
                assert(lines[0] == line0);
                assert(rest.skip(q - p + 1) =~= bytes@.skip(q + 1));
                assert(lines.skip(1) =~= spec_lines(bytes@.skip(q + 1)));
            }
            if line_end - p == 3 && bytes[p] == 0x45 && bytes[p + 1] == 0x4E && bytes[p + 2]
                == 0x44 {
                // The terminator line: it must be the last.
                proof {
                    assert(line0 =~= end_text());
                }
                if q + 1 == n {
                    proof {
                        assert(bytes@.skip(q + 1).len() == 0);
                        assert(lines.len() == 1);
                        assert(parse_lines(m@, lines) == ParseOutcome::Parsed(m@));
                    }
                    return Ok(m);
                }
                let ghost rest2 = bytes@.skip(q + 1);
                let q2 = find_nl(bytes, q + 1);
                proof {
                    assert(forall|t: int| 0 <= t < rest2.len() ==> rest2[t] == bytes@[q + 1 + t]);
                    if q2 == n {
                        assert(bytes@[n - 1] != 0x0A);
                        assert(false);
                    }
                }
                let le2 = if q2 > q + 1 && bytes[q2 - 1] == 0x0D {
                    q2 - 1
                } else {
                    q2
                };
                let ghost line1 = bytes@.subrange(q + 1, le2 as int);
                proof {
                    assert(first_nl_index(rest2) == q2 - (q + 1));
                    assert(rest2.len() > 0);
                    assert(0 <= q2 - (q + 1) < rest2.len());
                    assert(rest2.take(q2 - (q + 1)) =~= bytes@.subrange(q + 1, q2 as int));
                    if q2 > q + 1 && bytes@[q2 - 1] == 0x0D {
                        assert(rest2.take(q2 - (q + 1)).last() == 0x0D);
                        assert(strip_cr(rest2.take(q2 - (q + 1))) =~= line1);
                    } else {
                        assert(strip_cr(rest2.take(q2 - (q + 1))) =~= line1);
                    }
                    assert(spec_lines(rest2)[0] == line1);
                    assert(lines[1] == spec_lines(rest2)[0]);
                    assert(lines.len() >= 2);
                    assert(parse_lines(m@, lines) == ParseOutcome::Rejected(line1));
                }
                return Err(Error::Parse(copy_range(bytes, q + 1, le2)));
            }
            proof {
                assert(line0 != end_text()) by {
                    if line0 == end_text() {
                        assert(line0.len() == 3);
                        assert(line0[0] == bytes@[p as int] && line0[1] == bytes@[p + 1] && line0[2]
                            == bytes@[p + 2]);
                    }
                }
            }
            let ghost m_prev = m@;
            let line_slice = &bytes[p..line_end];
            proof {
                assert(line_slice@ == line0);
            }
            let ok = apply_line_exec(&mut m, line_slice);
            if !ok {
                proof {
                    assert(parse_lines(m_prev, lines) == ParseOutcome::Rejected(line0));
                }
                return Err(Error::Parse(copy_range(bytes, p, line_end)));
            }
            proof {
                assert(parse_lines(m_prev, lines) == parse_lines(m@, lines.skip(1)));
            }
            p = q + 1;
        }
        proof {
            assert(bytes@.skip(n as int).len() == 0);
            assert(parse_lines(m@, spec_lines(bytes@.skip(n as int))) == ParseOutcome::Parsed(m@));
        }
        Ok(m)
    }
}

} // verus!
