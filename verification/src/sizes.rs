//! Sizes in kibibytes: choosing a unit for display, and deciding whether a
//! transfer fits in the free space that is reported.

use vstd::prelude::*;

verus! {

/// Kibibytes in one mebibyte.
pub const MIB_OVER_KIB: i64 = 1_024;

/// Kibibytes in one gibibyte.
pub const GIB_OVER_KIB: i64 = 1_048_576;

/// Kibibytes in one tebibyte.
pub const TIB_OVER_KIB: i64 = 1_073_741_824;

/// Space, in KiB, that must stay free on the target after a transfer:
/// 10 MiB.
pub const FILE_SPACE_BUFFER: i64 = 10_240;

/// The unit in which a size given in KiB is shown.
#[derive(Clone, Copy, Debug, PartialEq, Eq, Structural)]
pub enum FilesizeType {
    Kibibyte,
    Mebibyte,
    Gibibyte,
    Tebibyte,
}

/// The absolute value of an integer.
pub open spec fn magnitude(x: int) -> int {
    if x < 0 {
        -x
    } else {
        x
    }
}

/// The unit for a size of `kib` KiB: the largest unit of which the size
/// holds at least one whole, up to tebibytes.
pub open spec fn unit_for(kib: int) -> FilesizeType {
    let v = magnitude(kib);
    if v < MIB_OVER_KIB {
        FilesizeType::Kibibyte
    } else if v < GIB_OVER_KIB {
        FilesizeType::Mebibyte
    } else if v < TIB_OVER_KIB {
        FilesizeType::Gibibyte
    } else {
        FilesizeType::Tebibyte
    }
}

impl FilesizeType {
    /// The label of the unit.
    pub open spec fn label(self) -> Seq<char> {
        match self {
            FilesizeType::Kibibyte => seq!['K', 'i', 'B'],
            FilesizeType::Mebibyte => seq!['M', 'i', 'B'],
            FilesizeType::Gibibyte => seq!['G', 'i', 'B'],
            FilesizeType::Tebibyte => seq!['T', 'i', 'B'],
        }
    }

    /// How many KiB one of the unit holds.
    pub open spec fn spec_kib_per_unit(self) -> int {
        match self {
            FilesizeType::Kibibyte => 1,
            FilesizeType::Mebibyte => MIB_OVER_KIB as int,
            FilesizeType::Gibibyte => GIB_OVER_KIB as int,
            FilesizeType::Tebibyte => TIB_OVER_KIB as int,
        }
    }

    /// The label shown after a size in this unit: "KiB", "MiB", "GiB" or "TiB".
    pub fn display(&self) -> (s: String)
        ensures
            s@ == self.label(),
    {
        proof {
            reveal_strlit("KiB");
            reveal_strlit("MiB");
            reveal_strlit("GiB");
            reveal_strlit("TiB");
        }
        match self {
            FilesizeType::Kibibyte => "KiB".to_owned(),
            FilesizeType::Mebibyte => "MiB".to_owned(),
            FilesizeType::Gibibyte => "GiB".to_owned(),
            FilesizeType::Tebibyte => "TiB".to_owned(),
        }
    }

    /// How many KiB one of the unit holds: a size in KiB is shown in this
    /// unit after division by this number.
    pub fn kib_per_unit(&self) -> (n: i64)
        ensures
            n == self.spec_kib_per_unit(),
            n > 0,
    {
        match self {
            FilesizeType::Kibibyte => 1,
            FilesizeType::Mebibyte => MIB_OVER_KIB,
            FilesizeType::Gibibyte => GIB_OVER_KIB,
            FilesizeType::Tebibyte => TIB_OVER_KIB,
        }
    }
}

/// The unit in which a size of `input` KiB is shown; the sign of the size
/// does not matter.
pub fn filesize_type(input: i64) -> (t: FilesizeType)
    requires
        input > i64::MIN,
    ensures
        t == unit_for(input as int),
{
    let value = if input < 0 {
        -input
    } else {
        input
    };
    if value < MIB_OVER_KIB {
        FilesizeType::Kibibyte
    } else if value < GIB_OVER_KIB {
        FilesizeType::Mebibyte
    } else if value < TIB_OVER_KIB {
        FilesizeType::Gibibyte
    } else {
        FilesizeType::Tebibyte
    }
}

/// Whether `free_space` KiB leave room for `addition` KiB and the reserve
/// of `FILE_SPACE_BUFFER` KiB beside it.
pub fn has_enough_space(addition: i64, free_space: i64) -> (ok: bool)
    requires
        FILE_SPACE_BUFFER + addition <= i64::MAX,
    ensures
        ok == (free_space >= FILE_SPACE_BUFFER + addition),
{
    !(free_space < FILE_SPACE_BUFFER + addition)
}

/// A size shown in the unit chosen for it reads at least 1 and under 1024,
/// save that kibibytes start at 0 and tebibytes have no upper bound.
pub proof fn lemma_unit_scales_into_range(kib: int)
    ensures
        ({
            let u = unit_for(kib);
            let per = u.spec_kib_per_unit();
            &&& per > 0
            &&& (u != FilesizeType::Kibibyte ==> per <= magnitude(kib))
            &&& (u != FilesizeType::Tebibyte ==> magnitude(kib) < 1024 * per)
        }),
{
}

/// Each unit holds 1024 of the one below it, starting from the kibibyte.
pub proof fn lemma_units_step_by_1024()
    ensures
        FilesizeType::Kibibyte.spec_kib_per_unit() == 1,
        FilesizeType::Mebibyte.spec_kib_per_unit() == 1024 * FilesizeType::Kibibyte.spec_kib_per_unit(),
        FilesizeType::Gibibyte.spec_kib_per_unit() == 1024 * FilesizeType::Mebibyte.spec_kib_per_unit(),
        FilesizeType::Tebibyte.spec_kib_per_unit() == 1024 * FilesizeType::Gibibyte.spec_kib_per_unit(),
{
}

/// Units grow with the size: a larger magnitude never gets a smaller unit.
pub proof fn lemma_unit_monotonic(a: int, b: int)
    requires
        magnitude(a) <= magnitude(b),
    ensures
        unit_for(a).spec_kib_per_unit() <= unit_for(b).spec_kib_per_unit(),
{
}

} // verus!
