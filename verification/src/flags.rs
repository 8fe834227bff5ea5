use vstd::prelude::*;

use crate::errors::PipelineError;

verus! {

/// Bits of the river centerline line-type flags.
pub const RCL_SMALL_NORMAL: u16 = 0x1;

pub const RCL_SMALL_DRY: u16 = 0x2;

pub const RCL_NORMAL: u16 = 0x4;

pub const RCL_DRY: u16 = 0x8;

pub const RCL_ARTIFICIAL_OPEN: u16 = 0x10;

pub const RCL_ARTIFICIAL_UNDERGROUND: u16 = 0x20;

pub const RCL_WATERWAY: u16 = 0x40;

pub const RCL_OTHER: u16 = 0x80;

pub const RCL_UNKNOWN: u16 = 0x100;

pub const RCL_ALL: u16 = 0x1FF;

/// Bits of the river category flags.
pub const CTG_PRIMARY: u8 = 0x1;

pub const CTG_SECONDARY: u8 = 0x2;

pub const CTG_QUASI: u8 = 0x4;

pub const CTG_REGULAR: u8 = 0x8;

pub const CTG_OTHER: u8 = 0x10;

pub const CTG_UNKNOWN: u8 = 0x20;

pub const CTG_ALL: u8 = 0x3F;

/// The line-type flag set of river centerlines: a set over a small closed
/// enumeration, used as an inclusion predicate over feature properties.
#[derive(Clone, Copy, PartialEq, Eq, Structural, Debug)]
pub struct RvRclFlags {
    pub bits: u16,
}

/// The category flag set of rivers.
#[derive(Clone, Copy, PartialEq, Eq, Structural, Debug)]
pub struct RvCtgFlags {
    pub bits: u8,
}

/// The line-type flag a single token names: the data-side spellings, the
/// command-line short forms, `all` for the full set, and the empty string
/// for the unknown flag.  Any other token is outside the closed set.
pub open spec fn spec_rcl_token(s: Seq<char>) -> Option<u16> {
    if s == "細河川（通常部）"@ || s == "sn"@ {
        Some(RCL_SMALL_NORMAL)
    } else if s == "細河川（枯れ川部）"@ || s == "sd"@ {
        Some(RCL_SMALL_DRY)
    } else if s == "河川中心線（通常部）"@ || s == "n"@ {
        Some(RCL_NORMAL)
    } else if s == "河川中心線（枯れ川部）"@ || s == "d"@ {
        Some(RCL_DRY)
    } else if s == "人工水路（空間）"@ || s == "ao"@ {
        Some(RCL_ARTIFICIAL_OPEN)
    } else if s == "人工水路（地下）"@ || s == "au"@ {
        Some(RCL_ARTIFICIAL_UNDERGROUND)
    } else if s == "用水路"@ || s == "w"@ {
        Some(RCL_WATERWAY)
    } else if s == "その他"@ || s == "o"@ {
        Some(RCL_OTHER)
    } else if s == "不明"@ || s == ""@ || s == "u"@ {
        Some(RCL_UNKNOWN)
    } else if s == "all"@ {
        Some(RCL_ALL)
    } else {
        None
    }
}

/// The category flag a single token names.
pub open spec fn spec_ctg_token(s: Seq<char>) -> Option<u8> {
    if s == "一級河川"@ || s == "p"@ {
        Some(CTG_PRIMARY)
    } else if s == "二級河川"@ || s == "s"@ {
        Some(CTG_SECONDARY)
    } else if s == "準用河川"@ || s == "q"@ {
        Some(CTG_QUASI)
    } else if s == "普通河川"@ || s == "r"@ {
        Some(CTG_REGULAR)
    } else if s == "その他"@ || s == "o"@ {
        Some(CTG_OTHER)
    } else if s == "不明"@ || s == ""@ || s == "u"@ {
        Some(CTG_UNKNOWN)
    } else if s == "all"@ {
        Some(CTG_ALL)
    } else {
        None
    }
}

impl RvRclFlags {
    /// The empty flag set.
    pub fn empty() -> (r: Self)
        ensures
            r.bits == 0,
    {
        RvRclFlags { bits: 0 }
    }

    /// The full flag set.
    pub fn all() -> (r: Self)
        ensures
            r.bits == RCL_ALL,
    {
        RvRclFlags { bits: RCL_ALL }
    }

    /// The union of two flag sets.
    pub fn union(self, other: Self) -> (r: Self)
        ensures
            r.bits == self.bits | other.bits,
    {
        RvRclFlags { bits: self.bits | other.bits }
    }

    /// Whether the two flag sets share a flag.
    pub fn intersects(self, other: Self) -> (r: bool)
        ensures
            r == ((self.bits & other.bits) != 0),
    {
        (self.bits & other.bits) != 0
    }

    /// Parses one token of the closed line-type enumeration; a token
    /// outside it is a configuration error, if and only if.
    pub fn from_str(s: &str) -> (r: Result<Self, PipelineError>)
        ensures
            r is Ok <==> spec_rcl_token(s@) is Some,
            r matches Ok(f) ==> spec_rcl_token(s@) == Some(f.bits),
            r is Err ==> r == Err::<Self, PipelineError>(PipelineError::Configuration),
    {
        let t = s.to_owned();
        if t == "細河川（通常部）".to_owned() || t == "sn".to_owned() {
            Ok(RvRclFlags { bits: RCL_SMALL_NORMAL })
        } else if t == "細河川（枯れ川部）".to_owned() || t == "sd".to_owned() {
            Ok(RvRclFlags { bits: RCL_SMALL_DRY })
        } else if t == "河川中心線（通常部）".to_owned() || t == "n".to_owned() {
            Ok(RvRclFlags { bits: RCL_NORMAL })
        } else if t == "河川中心線（枯れ川部）".to_owned() || t == "d".to_owned() {
            Ok(RvRclFlags { bits: RCL_DRY })
        } else if t == "人工水路（空間）".to_owned() || t == "ao".to_owned() {
            Ok(RvRclFlags { bits: RCL_ARTIFICIAL_OPEN })
        } else if t == "人工水路（地下）".to_owned() || t == "au".to_owned() {
            Ok(RvRclFlags { bits: RCL_ARTIFICIAL_UNDERGROUND })
        } else if t == "用水路".to_owned() || t == "w".to_owned() {
            Ok(RvRclFlags { bits: RCL_WATERWAY })
        } else if t == "その他".to_owned() || t == "o".to_owned() {
            Ok(RvRclFlags { bits: RCL_OTHER })
        } else if t == "不明".to_owned() || t == "".to_owned() || t == "u".to_owned() {
            Ok(RvRclFlags { bits: RCL_UNKNOWN })
        } else if t == "all".to_owned() {
            Ok(RvRclFlags { bits: RCL_ALL })
        } else {
            Err(PipelineError::Configuration)
        }
    }
}

impl RvCtgFlags {
    /// The empty flag set.
    pub fn empty() -> (r: Self)
        ensures
            r.bits == 0,
    {
        RvCtgFlags { bits: 0 }
    }

    /// The full flag set.
    pub fn all() -> (r: Self)
        ensures
            r.bits == CTG_ALL,
    {
        RvCtgFlags { bits: CTG_ALL }
    }

    /// The union of two flag sets.
    pub fn union(self, other: Self) -> (r: Self)
        ensures
            r.bits == self.bits | other.bits,
    {
        RvCtgFlags { bits: self.bits | other.bits }
    }

    /// Whether the two flag sets share a flag.
    pub fn intersects(self, other: Self) -> (r: bool)
        ensures
            r == ((self.bits & other.bits) != 0),
    {
        (self.bits & other.bits) != 0
    }

    /// Parses one token of the closed category enumeration; a token outside
    /// it is a configuration error, if and only if.
    pub fn from_str(s: &str) -> (r: Result<Self, PipelineError>)
        ensures
            r is Ok <==> spec_ctg_token(s@) is Some,
            r matches Ok(f) ==> spec_ctg_token(s@) == Some(f.bits),
            r is Err ==> r == Err::<Self, PipelineError>(PipelineError::Configuration),
    {
        let t = s.to_owned();
        if t == "一級河川".to_owned() || t == "p".to_owned() {
            Ok(RvCtgFlags { bits: CTG_PRIMARY })
        } else if t == "二級河川".to_owned() || t == "s".to_owned() {
            Ok(RvCtgFlags { bits: CTG_SECONDARY })
        } else if t == "準用河川".to_owned() || t == "q".to_owned() {
            Ok(RvCtgFlags { bits: CTG_QUASI })
        } else if t == "普通河川".to_owned() || t == "r".to_owned() {
            Ok(RvCtgFlags { bits: CTG_REGULAR })
        } else if t == "その他".to_owned() || t == "o".to_owned() {
            Ok(RvCtgFlags { bits: CTG_OTHER })
        } else if t == "不明".to_owned() || t == "".to_owned() || t == "u".to_owned() {
            Ok(RvCtgFlags { bits: CTG_UNKNOWN })
        } else if t == "all".to_owned() {
            Ok(RvCtgFlags { bits: CTG_ALL })
        } else {
            Err(PipelineError::Configuration)
        }
    }
}

/// The union of the line-type flags a comma-split list names, folded from
/// the front: nothing when any token of the first i is outside the set.
pub open spec fn spec_rcl_list(items: Seq<String>, i: int) -> Option<u16>
    decreases i,
{
    if i <= 0 {
        Some(0u16)
    } else {
        match (spec_rcl_list(items, i - 1), spec_rcl_token(items[i - 1]@)) {
            (Some(acc), Some(b)) => Some(acc | b),
            _ => None,
        }
    }
}

/// The union of the category flags a comma-split list names.
pub open spec fn spec_ctg_list(items: Seq<String>, i: int) -> Option<u8>
    decreases i,
{
    if i <= 0 {
        Some(0u8)
    } else {
        match (spec_ctg_list(items, i - 1), spec_ctg_token(items[i - 1]@)) {
            (Some(acc), Some(b)) => Some(acc | b),
            _ => None,
        }
    }
}

proof fn lemma_rcl_list_none(items: Seq<String>, i: int, j: int)
    requires
        0 <= i <= j,
        spec_rcl_list(items, i) is None,
    ensures
        spec_rcl_list(items, j) is None,
    decreases j - i,
{
    if j > i {
        lemma_rcl_list_none(items, i, j - 1);
    }
}

proof fn lemma_ctg_list_none(items: Seq<String>, i: int, j: int)
    requires
        0 <= i <= j,
        spec_ctg_list(items, i) is None,
    ensures
        spec_ctg_list(items, j) is None,
    decreases j - i,
{
    if j > i {
        lemma_ctg_list_none(items, i, j - 1);
    }
}

/// Folds a comma-split flag list into one line-type flag set, the union of
/// its tokens; any token outside the closed set refuses the whole list.
pub fn parse_rcl_flag_list(items: &Vec<String>) -> (r: Result<RvRclFlags, PipelineError>)
    ensures
        r is Ok <==> spec_rcl_list(items@, items@.len() as int) is Some,
        r matches Ok(f) ==> spec_rcl_list(items@, items@.len() as int) == Some(f.bits),
        r is Err ==> r == Err::<RvRclFlags, PipelineError>(PipelineError::Configuration),
{
    let mut acc: u16 = 0;
    let mut i: usize = 0;
    while i < items.len()
        invariant
            i <= items@.len(),
            spec_rcl_list(items@, i as int) == Some(acc),
        decreases items@.len() - i,
    {
        match RvRclFlags::from_str(items[i].as_str()) {
            Ok(f) => {
                acc = acc | f.bits;
            },
            Err(e) => {
                proof {
                    lemma_rcl_list_none(items@, i as int + 1, items@.len() as int);
                }
                return Err(e);
            },
        }
        i = i + 1;
    }
    Ok(RvRclFlags { bits: acc })
}

/// Folds a comma-split flag list into one category flag set.
pub fn parse_ctg_flag_list(items: &Vec<String>) -> (r: Result<RvCtgFlags, PipelineError>)
    ensures
        r is Ok <==> spec_ctg_list(items@, items@.len() as int) is Some,
        r matches Ok(f) ==> spec_ctg_list(items@, items@.len() as int) == Some(f.bits),
        r is Err ==> r == Err::<RvCtgFlags, PipelineError>(PipelineError::Configuration),
{
    let mut acc: u8 = 0;
    let mut i: usize = 0;
    while i < items.len()
        invariant
            i <= items@.len(),
            spec_ctg_list(items@, i as int) == Some(acc),
        decreases items@.len() - i,
    {
        match RvCtgFlags::from_str(items[i].as_str()) {
            Ok(f) => {
                acc = acc | f.bits;
            },
            Err(e) => {
                proof {
                    lemma_ctg_list_none(items@, i as int + 1, items@.len() as int);
                }
                return Err(e);
            },
        }
        i = i + 1;
    }
    Ok(RvCtgFlags { bits: acc })
}

/// Reads the two categorical properties of a feature: a missing property,
/// or a value outside its closed enumeration, does not match the expected
/// schema and is refused, if and only if.
pub fn read_property(type_s: Option<&String>, ctg_s: Option<&String>) -> (r: Result<
    (RvRclFlags, RvCtgFlags),
    PipelineError,
>)
    ensures
        r is Ok <==> (type_s is Some && ctg_s is Some && spec_rcl_token(type_s->0@) is Some
            && spec_ctg_token(ctg_s->0@) is Some),
        r matches Ok((rcl, ctg)) ==> spec_rcl_token(type_s->0@) == Some(rcl.bits)
            && spec_ctg_token(ctg_s->0@) == Some(ctg.bits),
        r is Err ==> r == Err::<(RvRclFlags, RvCtgFlags), PipelineError>(
            PipelineError::DataIntegrity,
        ),
{
    let type_s = match type_s {
        Some(s) => s,
        None => {
            return Err(PipelineError::DataIntegrity);
        },
    };
    let ctg_s = match ctg_s {
        Some(s) => s,
        None => {
            return Err(PipelineError::DataIntegrity);
        },
    };
    let rcl = match RvRclFlags::from_str(type_s.as_str()) {
        Ok(f) => f,
        Err(_) => {
            return Err(PipelineError::DataIntegrity);
        },
    };
    let ctg = match RvCtgFlags::from_str(ctg_s.as_str()) {
        Ok(f) => f,
        Err(_) => {
            return Err(PipelineError::DataIntegrity);
        },
    };
    Ok((rcl, ctg))
}

} // verus!
