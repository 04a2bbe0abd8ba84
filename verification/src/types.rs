//! Domain value types: positive numeric identifiers and the closed
//! enumerations for operating mode, job mode and UI language.

use vstd::prelude::*;

verus! {

use vstd::std_specs::cmp::PartialOrdSpec;

/// Supported UI languages for the controller's HMI.
#[derive(Clone, Copy, Debug, PartialEq, Eq, Structural, Hash)]
pub enum Language {
    /// Unknown language.
    Unknown,
    /// English (en)
    EN,
    /// Traditional Chinese (zh-tw)
    B5,
    /// Simplified Chinese (zh-cn)
    GB,
    /// French (fr)
    FR,
    /// German (de)
    DE,
    /// Italian (it)
    IT,
    /// Spanish (es)
    ES,
    /// Portuguese (pt)
    PT,
    /// Japanese (ja)
    JA,
}

impl Language {
    /// Returns true if `Language::Unknown`.
    pub fn is_unknown(&self) -> (r: bool)
        ensures
            r == (*self is Unknown),
    {
        *self == Language::Unknown
    }
}

impl Default for Language {
    fn default() -> (r: Self)
        ensures
            r is Unknown,
    {
        Language::Unknown
    }
}

/// Operating modes of the controller.
#[derive(Clone, Copy, Debug, PartialEq, Eq, Structural, Hash)]
pub enum OpMode {
    /// Unknown operation mode.
    Unknown,
    /// Manual mode.
    Manual,
    /// Semi-Automatic mode.
    SemiAutomatic,
    /// Automatic mode.
    Automatic,
    /// Other unspecified operation mode.
    Others,
    /// The controller is off-line.  When a controller is off-line, both its
    /// operating mode and its job mode should be `Offline`.
    Offline,
}

impl OpMode {
    /// Returns true if `OpMode::Unknown`.
    pub fn is_unknown(&self) -> (r: bool)
        ensures
            r == (*self is Unknown),
    {
        *self == OpMode::Unknown
    }

    /// Returns true if `OpMode::Offline`.
    pub fn is_offline(&self) -> (r: bool)
        ensures
            r == (*self is Offline),
    {
        *self == OpMode::Offline
    }

    /// All variants other than `Unknown` and `Offline` mean on-line.
    pub fn is_online(&self) -> (r: bool)
        ensures
            r == (!(*self is Unknown) && !(*self is Offline)),
    {
        match self {
            OpMode::Unknown | OpMode::Offline => false,
            _ => true,
        }
    }

    /// A machine is producing if it is in either `Automatic` or
    /// `SemiAutomatic` mode.
    pub fn is_producing(&self) -> (r: bool)
        ensures
            r == (*self is SemiAutomatic || *self is Automatic),
    {
        match self {
            OpMode::SemiAutomatic | OpMode::Automatic => true,
            _ => false,
        }
    }
}

impl Default for OpMode {
    fn default() -> (r: Self)
        ensures
            r is Unknown,
    {
        OpMode::Unknown
    }
}

/// Job modes of the controller.  On some controller models, job modes 1-15
/// (`ID01` - `ID15`) can be user-defined.
#[derive(Clone, Copy, Debug, PartialEq, Eq, Structural, Hash)]
pub enum JobMode {
    /// Unknown job mode.
    Unknown,
    ID01,
    ID02,
    ID03,
    ID04,
    ID05,
    ID06,
    ID07,
    ID08,
    ID09,
    ID10,
    ID11,
    ID12,
    ID13,
    ID14,
    ID15,
    /// The controller is off-line.  When a controller is off-line, both its
    /// operating mode and its job mode should be `Offline`.
    Offline,
}

impl JobMode {
    /// Returns true if `JobMode::Unknown`.
    pub fn is_unknown(&self) -> (r: bool)
        ensures
            r == (*self is Unknown),
    {
        *self == JobMode::Unknown
    }

    /// Returns true if `JobMode::Offline`.
    pub fn is_offline(&self) -> (r: bool)
        ensures
            r == (*self is Offline),
    {
        *self == JobMode::Offline
    }

    /// All variants other than `Unknown` and `Offline` mean on-line.
    pub fn is_online(&self) -> (r: bool)
        ensures
            r == (!(*self is Unknown) && !(*self is Offline)),
    {
        match self {
            JobMode::Unknown | JobMode::Offline => false,
            _ => true,
        }
    }
}

impl Default for JobMode {
    fn default() -> (r: Self)
        ensures
            r is Unknown,
    {
        JobMode::Unknown
    }
}

/// A numeric ID that cannot be zero.  The wrapped value is the plain `u32`
/// it compares and displays as.
#[derive(Clone, Copy, Debug, Hash, PartialEq, Eq, Structural)]
pub struct ID(u32);

impl View for ID {
    type V = u32;

    closed spec fn view(&self) -> u32 {
        self.0
    }
}

impl ID {
    /// Zero is never a valid ID.
    #[verifier::type_invariant]
    pub closed spec fn wf(self) -> bool {
        self.0 != 0
    }

    /// Builds an ID from a non-zero number.  Zero is excluded by contract,
    /// so an ID can never hold it.
    pub fn new(num: u32) -> (r: ID)
        requires
            num != 0,
        ensures
            r@ == num,
    {
        ID(num)
    }

    /// Builds an ID from any number, refusing exactly zero.
    pub fn try_new(num: u32) -> (r: Option<ID>)
        ensures
            match r {
                Some(id) => num != 0 && id@ == num,
                None => num == 0,
            },
    {
        if num == 0 {
            None
        } else {
            Some(ID(num))
        }
    }

    /// The wrapped number, which is never zero.
    pub fn get(&self) -> (r: u32)
        ensures
            r == self@,
            r != 0,
    {
        proof {
            use_type_invariant(self);
        }
        self.0
    }

    /// Numeric comparison against a raw number.
    pub fn eq_num(&self, other: u32) -> (r: bool)
        ensures
            r == (self@ == other),
    {
        self.0 == other
    }

    /// Numeric order against a raw number.
    pub fn lt_num(&self, other: u32) -> (r: bool)
        ensures
            r == (self@ < other),
    {
        self.0 < other
    }
}

impl PartialOrd for ID {
    fn partial_cmp(&self, other: &ID) -> (r: Option<core::cmp::Ordering>)
    {
        if self.0 < other.0 {
            Some(core::cmp::Ordering::Less)
        } else if self.0 == other.0 {
            Some(core::cmp::Ordering::Equal)
        } else {
            Some(core::cmp::Ordering::Greater)
        }
    }
}

impl vstd::std_specs::cmp::PartialOrdSpecImpl for ID {
    open spec fn obeys_partial_cmp_spec() -> bool {
        true
    }

    open spec fn partial_cmp_spec(&self, other: &ID) -> Option<core::cmp::Ordering> {
        if self@ < other@ {
            Some(core::cmp::Ordering::Less)
        } else if self@ == other@ {
            Some(core::cmp::Ordering::Equal)
        } else {
            Some(core::cmp::Ordering::Greater)
        }
    }
}

/// The order of IDs is exactly the numeric order of the numbers they wrap,
/// and two IDs are equal exactly when those numbers are equal.
pub proof fn lemma_id_order_is_numeric(a: ID, b: ID)
    ensures
        a.partial_cmp_spec(&b) == Some(core::cmp::Ordering::Less) <==> a@ < b@,
        a.partial_cmp_spec(&b) == Some(core::cmp::Ordering::Equal) <==> a@ == b@,
        a.partial_cmp_spec(&b) == Some(core::cmp::Ordering::Greater) <==> a@ > b@,
        a == b <==> a@ == b@,
{
}

} // verus!
