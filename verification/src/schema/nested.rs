//! The nested module's wire types: two fieldless enums and an exhaustive
//! flag enum.

use vstd::prelude::*;

use crate::base::utils::{self, disc_dec};
use crate::bytes::{ByteSlice, Bytes};
use crate::errors::{eof, invalid_prefix, DecodingError};
use crate::imp::special::Flags;
use crate::traits::{IsFlag, WireDecode, WireEncode};

verus! {

/// A personal pronoun.
#[derive(Debug, Clone, Copy, PartialEq, Eq, Structural)]
pub enum Pronoun {
    He,
    Him,
    She,
    Her,
    They,
    Them,
}

/// The declaration index of a pronoun variant.
pub open spec fn pronoun_index(v: Pronoun) -> int {
    match v {
        Pronoun::He => 0,
        Pronoun::Him => 1,
        Pronoun::She => 2,
        Pronoun::Her => 3,
        Pronoun::They => 4,
        Pronoun::Them => 5,
    }
}

/// The pronoun with the given declaration index.
pub open spec fn pronoun_of(d: int) -> Pronoun {
    if d == 0 {
        Pronoun::He
    } else if d == 1 {
        Pronoun::Him
    } else if d == 2 {
        Pronoun::She
    } else if d == 3 {
        Pronoun::Her
    } else if d == 4 {
        Pronoun::They
    } else {
        Pronoun::Them
    }
}

/// Decoding a pronoun: a strict discriminant below the variant count.
pub open spec fn pronoun_dec(s: Seq<u8>, i: int) -> Option<(Pronoun, int)> {
    match disc_dec(s, i) {
        None => None,
        Some((d, j)) => {
            if d < 6 {
                Some((pronoun_of(d), j))
            } else {
                None
            }
        },
    }
}

/// Which error a failed pronoun decode reports: an unexpected end of
/// input, or an invalid prefix at the out-of-range discriminant.
pub open spec fn pronoun_dec_err(s: Seq<u8>, i: int) -> DecodingError {
    match disc_dec(s, i) {
        None => eof(i),
        Some(_) => invalid_prefix(i),
    }
}

impl DeepView for Pronoun {
    type V = Pronoun;

    open spec fn deep_view(&self) -> Pronoun {
        *self
    }
}

impl WireEncode for Pronoun {
    open spec fn wire(&self) -> Seq<u8> {
        seq![pronoun_index(*self) as u8]
    }

    open spec fn wf_value(&self) -> bool {
        true
    }

    fn encode(&self, out: &mut Vec<u8>) {
        let d: usize = match self {
            Pronoun::He => 0,
            Pronoun::Him => 1,
            Pronoun::She => 2,
            Pronoun::Her => 3,
            Pronoun::They => 4,
            Pronoun::Them => 5,
        };
        utils::encode_discriminant(d, out);
    }
}

impl WireDecode for Pronoun {
    open spec fn dec(s: Seq<u8>, i: int) -> Option<(Pronoun, int)> {
        pronoun_dec(s, i)
    }

    open spec fn dec_err(s: Seq<u8>, i: int) -> DecodingError {
        pronoun_dec_err(s, i)
    }

    open spec fn rec(s: Seq<u8>, i: int) -> Option<int> {
        match pronoun_dec(s, i) {
            Some((_, j)) => Some(j),
            None => None,
        }
    }

    open spec fn rec_err(s: Seq<u8>, i: int) -> DecodingError {
        pronoun_dec_err(s, i)
    }

    open spec fn rt() -> bool {
        true
    }

    open spec fn rec_exact() -> bool {
        true
    }

    open spec fn dec_progress() -> bool {
        true
    }

    fn decode(bytes: &mut Bytes<'_>, _buf: &mut Vec<u8>) -> Result<Pronoun, DecodingError> {
        let start = bytes.mark().to_usize();
        let d = match utils::decode_discriminant(bytes) {
            Ok(d) => d,
            Err(e) => {
                return Err(e);
            },
        };
        match d {
            0 => Ok(Pronoun::He),
            1 => Ok(Pronoun::Him),
            2 => Ok(Pronoun::She),
            3 => Ok(Pronoun::Her),
            4 => Ok(Pronoun::They),
            5 => Ok(Pronoun::Them),
            _ => Err(DecodingError::invalid_prefix_at(start)),
        }
    }

    fn recognize<'a>(bytes: &mut Bytes<'a>, buf: &mut Vec<u8>) -> Result<
        ByteSlice<'a, Pronoun>,
        DecodingError,
    > {
        let mark = bytes.mark();
        match Self::decode(bytes, buf) {
            Ok(_) => Ok(bytes.take_slice_from(mark)),
            Err(e) => Err(e),
        }
    }

    proof fn lemma_dec_in_range(s: Seq<u8>, i: int) {
    }

    proof fn lemma_dec_progress(s: Seq<u8>, i: int) {
    }

    proof fn lemma_wire_dec(&self, s: Seq<u8>, i: int) {
        assert(s[i] == self.wire()[0]);
    }

    proof fn lemma_rec_covers(s: Seq<u8>, i: int) {
    }

    proof fn lemma_dec_frame(s: Seq<u8>, i: int, t: Seq<u8>, k: int) {
        assert(t[k] == t.subrange(k, k + 1)[0]);
        assert(s[i] == s.subrange(i, i + 1)[0]);
    }
}

/// A degree's name.
#[derive(Debug, Clone, Copy, PartialEq, Eq, Structural)]
pub enum DegreeName {
    Associate,
    Bachelor,
    Master,
    Doctor,
}

/// The declaration index of a degree-name variant.
pub open spec fn degree_name_index(v: DegreeName) -> int {
    match v {
        DegreeName::Associate => 0,
        DegreeName::Bachelor => 1,
        DegreeName::Master => 2,
        DegreeName::Doctor => 3,
    }
}

/// The degree name with the given declaration index.
pub open spec fn degree_name_of(d: int) -> DegreeName {
    if d == 0 {
        DegreeName::Associate
    } else if d == 1 {
        DegreeName::Bachelor
    } else if d == 2 {
        DegreeName::Master
    } else {
        DegreeName::Doctor
    }
}

/// Decoding a degree name: a strict discriminant below the variant count.
pub open spec fn degree_name_dec(s: Seq<u8>, i: int) -> Option<(DegreeName, int)> {
    match disc_dec(s, i) {
        None => None,
        Some((d, j)) => {
            if d < 4 {
                Some((degree_name_of(d), j))
            } else {
                None
            }
        },
    }
}

/// Which error a failed degree-name decode reports.
pub open spec fn degree_name_dec_err(s: Seq<u8>, i: int) -> DecodingError {
    match disc_dec(s, i) {
        None => eof(i),
        Some(_) => invalid_prefix(i),
    }
}

impl DeepView for DegreeName {
    type V = DegreeName;

    open spec fn deep_view(&self) -> DegreeName {
        *self
    }
}

impl WireEncode for DegreeName {
    open spec fn wire(&self) -> Seq<u8> {
        seq![degree_name_index(*self) as u8]
    }

    open spec fn wf_value(&self) -> bool {
        true
    }

    fn encode(&self, out: &mut Vec<u8>) {
        let d: usize = match self {
            DegreeName::Associate => 0,
            DegreeName::Bachelor => 1,
            DegreeName::Master => 2,
            DegreeName::Doctor => 3,
        };
        utils::encode_discriminant(d, out);
    }
}

impl WireDecode for DegreeName {
    open spec fn dec(s: Seq<u8>, i: int) -> Option<(DegreeName, int)> {
        degree_name_dec(s, i)
    }

    open spec fn dec_err(s: Seq<u8>, i: int) -> DecodingError {
        degree_name_dec_err(s, i)
    }

    open spec fn rec(s: Seq<u8>, i: int) -> Option<int> {
        match degree_name_dec(s, i) {
            Some((_, j)) => Some(j),
            None => None,
        }
    }

    open spec fn rec_err(s: Seq<u8>, i: int) -> DecodingError {
        degree_name_dec_err(s, i)
    }

    open spec fn rt() -> bool {
        true
    }

    open spec fn rec_exact() -> bool {
        true
    }

    open spec fn dec_progress() -> bool {
        true
    }

    fn decode(bytes: &mut Bytes<'_>, _buf: &mut Vec<u8>) -> Result<DegreeName, DecodingError> {
        let start = bytes.mark().to_usize();
        let d = match utils::decode_discriminant(bytes) {
            Ok(d) => d,
            Err(e) => {
                return Err(e);
            },
        };
        match d {
            0 => Ok(DegreeName::Associate),
            1 => Ok(DegreeName::Bachelor),
            2 => Ok(DegreeName::Master),
            3 => Ok(DegreeName::Doctor),
            _ => Err(DecodingError::invalid_prefix_at(start)),
        }
    }

    fn recognize<'a>(bytes: &mut Bytes<'a>, buf: &mut Vec<u8>) -> Result<
        ByteSlice<'a, DegreeName>,
        DecodingError,
    > {
        let mark = bytes.mark();
        match Self::decode(bytes, buf) {
            Ok(_) => Ok(bytes.take_slice_from(mark)),
            Err(e) => Err(e),
        }
    }

    proof fn lemma_dec_in_range(s: Seq<u8>, i: int) {
    }

    proof fn lemma_dec_progress(s: Seq<u8>, i: int) {
    }

    proof fn lemma_wire_dec(&self, s: Seq<u8>, i: int) {
        assert(s[i] == self.wire()[0]);
    }

    proof fn lemma_rec_covers(s: Seq<u8>, i: int) {
    }

    proof fn lemma_dec_frame(s: Seq<u8>, i: int, t: Seq<u8>, k: int) {
        assert(t[k] == t.subrange(k, k + 1)[0]);
        assert(s[i] == s.subrange(i, i + 1)[0]);
    }
}

/// The flag enum of countries a person may hold citizenship of: the
/// member states of the European Union, in declaration order. The enum is
/// exhaustive, so a set of these travels as a fixed four-byte bitmap.
#[derive(Debug, Clone, Copy, PartialEq, Eq, Structural)]
pub enum CountryFlag {
    Austria,
    Belgium,
    Bulgaria,
    Croatia,
    Cyprus,
    CzechRepublic,
    Denmark,
    Estonia,
    Finland,
    France,
    Germany,
    Greece,
    Hungary,
    Ireland,
    Italy,
    Latvia,
    Lithuania,
    Luxembourg,
    Malta,
    Netherlands,
    Poland,
    Portugal,
    Romania,
    Slovakia,
    Slovenia,
    Spain,
    Sweden,
}

/// A set of countries.
pub type Country = Flags<CountryFlag>;

impl IsFlag for CountryFlag {
    open spec fn spec_count() -> nat {
        27
    }

    open spec fn spec_exhaustive() -> bool {
        true
    }

    open spec fn spec_bit_index(&self) -> nat {
        match *self {
            CountryFlag::Austria => 0,
            CountryFlag::Belgium => 1,
            CountryFlag::Bulgaria => 2,
            CountryFlag::Croatia => 3,
            CountryFlag::Cyprus => 4,
            CountryFlag::CzechRepublic => 5,
            CountryFlag::Denmark => 6,
            CountryFlag::Estonia => 7,
            CountryFlag::Finland => 8,
            CountryFlag::France => 9,
            CountryFlag::Germany => 10,
            CountryFlag::Greece => 11,
            CountryFlag::Hungary => 12,
            CountryFlag::Ireland => 13,
            CountryFlag::Italy => 14,
            CountryFlag::Latvia => 15,
            CountryFlag::Lithuania => 16,
            CountryFlag::Luxembourg => 17,
            CountryFlag::Malta => 18,
            CountryFlag::Netherlands => 19,
            CountryFlag::Poland => 20,
            CountryFlag::Portugal => 21,
            CountryFlag::Romania => 22,
            CountryFlag::Slovakia => 23,
            CountryFlag::Slovenia => 24,
            CountryFlag::Spain => 25,
            CountryFlag::Sweden => 26,
        }
    }

    fn count() -> usize {
        27
    }

    fn is_exhaustive() -> bool {
        true
    }

    fn bit_index(&self) -> usize {
        match *self {
            CountryFlag::Austria => 0,
            CountryFlag::Belgium => 1,
            CountryFlag::Bulgaria => 2,
            CountryFlag::Croatia => 3,
            CountryFlag::Cyprus => 4,
            CountryFlag::CzechRepublic => 5,
            CountryFlag::Denmark => 6,
            CountryFlag::Estonia => 7,
            CountryFlag::Finland => 8,
            CountryFlag::France => 9,
            CountryFlag::Germany => 10,
            CountryFlag::Greece => 11,
            CountryFlag::Hungary => 12,
            CountryFlag::Ireland => 13,
            CountryFlag::Italy => 14,
            CountryFlag::Latvia => 15,
            CountryFlag::Lithuania => 16,
            CountryFlag::Luxembourg => 17,
            CountryFlag::Malta => 18,
            CountryFlag::Netherlands => 19,
            CountryFlag::Poland => 20,
            CountryFlag::Portugal => 21,
            CountryFlag::Romania => 22,
            CountryFlag::Slovakia => 23,
            CountryFlag::Slovenia => 24,
            CountryFlag::Spain => 25,
            CountryFlag::Sweden => 26,
        }
    }

    fn all() -> (r: Vec<CountryFlag>) {
        let mut r: Vec<CountryFlag> = Vec::new();
        r.push(CountryFlag::Austria);
        r.push(CountryFlag::Belgium);
        r.push(CountryFlag::Bulgaria);
        r.push(CountryFlag::Croatia);
        r.push(CountryFlag::Cyprus);
        r.push(CountryFlag::CzechRepublic);
        r.push(CountryFlag::Denmark);
        r.push(CountryFlag::Estonia);
        r.push(CountryFlag::Finland);
        r.push(CountryFlag::France);
        r.push(CountryFlag::Germany);
        r.push(CountryFlag::Greece);
        r.push(CountryFlag::Hungary);
        r.push(CountryFlag::Ireland);
        r.push(CountryFlag::Italy);
        r.push(CountryFlag::Latvia);
        r.push(CountryFlag::Lithuania);
        r.push(CountryFlag::Luxembourg);
        r.push(CountryFlag::Malta);
        r.push(CountryFlag::Netherlands);
        r.push(CountryFlag::Poland);
        r.push(CountryFlag::Portugal);
        r.push(CountryFlag::Romania);
        r.push(CountryFlag::Slovakia);
        r.push(CountryFlag::Slovenia);
        r.push(CountryFlag::Spain);
        r.push(CountryFlag::Sweden);
        assert forall|k: int| 0 <= k < r@.len() implies #[trigger] r@[k].spec_bit_index()
            == k by {}
        r
    }
}

/// A non-exhaustive flag enum: a producer may set bits this consumer does
/// not declare, so a set of these travels behind a byte count.
#[derive(Debug, Clone, Copy, PartialEq, Eq, Structural)]
pub enum BadgeFlag {
    Bronze,
    Silver,
    Gold,
}

/// A set of badges.
pub type Badges = Flags<BadgeFlag>;

impl IsFlag for BadgeFlag {
    open spec fn spec_count() -> nat {
        3
    }

    open spec fn spec_exhaustive() -> bool {
        false
    }

    open spec fn spec_bit_index(&self) -> nat {
        match *self {
            BadgeFlag::Bronze => 0,
            BadgeFlag::Silver => 1,
            BadgeFlag::Gold => 2,
        }
    }

    fn count() -> usize {
        3
    }

    fn is_exhaustive() -> bool {
        false
    }

    fn bit_index(&self) -> usize {
        match *self {
            BadgeFlag::Bronze => 0,
            BadgeFlag::Silver => 1,
            BadgeFlag::Gold => 2,
        }
    }

    fn all() -> (r: Vec<BadgeFlag>) {
        let mut r: Vec<BadgeFlag> = Vec::new();
        r.push(BadgeFlag::Bronze);
        r.push(BadgeFlag::Silver);
        r.push(BadgeFlag::Gold);
        assert forall|k: int| 0 <= k < r@.len() implies #[trigger] r@[k].spec_bit_index()
            == k by {}
        r
    }
}

} // verus!
