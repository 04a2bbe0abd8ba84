//! Entity records: the current known status snapshot of a controller, and
//! the people and places attached to it.  Each record has a
//! well-formedness predicate and a `check` that decides it exactly.

use vstd::prelude::*;

use crate::error::is_invalid_field;
use crate::error::OpenProtocolError;
use crate::number::Decimal;
use crate::timestamp::ts_wf;
use crate::timestamp::Timestamp;
use crate::types::JobMode;
use crate::types::OpMode;
use crate::validate::check_address;
use crate::validate::check_optional_str_empty;
use crate::validate::check_string_empty;
use crate::validate::is_valid_address;

verus! {

use vstd::string::StringExecFns;

/// Mathematical model of an `Operator`.
pub struct OperatorView {
    pub operator_id: u32,
    pub operator_name: Option<Seq<char>>,
}

/// Mathematical model of a `GeoLocation`: the two coordinate numerals.
pub struct GeoLocationView {
    pub geo_latitude: Seq<char>,
    pub geo_longitude: Seq<char>,
}

/// Mathematical model of a `Controller`.
pub struct ControllerView {
    pub controller_id: u32,
    pub display_name: Option<Seq<char>>,
    pub controller_type: Seq<char>,
    pub version: Seq<char>,
    pub model: Seq<char>,
    pub address: Seq<char>,
    pub geo_location: Option<GeoLocationView>,
    pub op_mode: OpMode,
    pub job_mode: JobMode,
    pub last_cycle_data: Option<Seq<(Seq<char>, Seq<char>)>>,
    pub variables: Option<Seq<(Seq<char>, Seq<char>)>>,
    pub last_connection_time: Option<Timestamp>,
    pub operator: Option<OperatorView>,
    pub job_card_id: Option<Seq<char>>,
    pub mold_id: Option<Seq<char>>,
}

/// A single user on the system.
#[derive(Clone, Debug, PartialEq)]
pub struct Operator {
    /// Unique user ID, which cannot be zero.
    pub operator_id: u32,
    /// Name of the user.
    pub operator_name: Option<String>,
}

/// A single physical geo-location; both coordinates are finite numbers.
#[derive(Clone, Debug, PartialEq)]
pub struct GeoLocation {
    /// Latitude.
    pub geo_latitude: Decimal,
    /// Longitude.
    pub geo_longitude: Decimal,
}

/// The current known status of a controller.  A record is an independent
/// immutable snapshot, built fresh from each inbound status message.
#[derive(Clone, Debug, PartialEq)]
pub struct Controller {
    /// Unique ID of the controller, which cannot be zero.
    pub controller_id: u32,
    /// User-specified human-friendly name for the machine.
    pub display_name: Option<String>,
    /// Controller type, such as `Ai12` or `MPC7`.
    pub controller_type: String,
    /// Version of the controller's firmware.
    pub version: String,
    /// Machine model.
    pub model: String,
    /// Address of the controller: either `x.x.x.x:port` for a network
    /// connection, or a serial device name such as `COM1` or `ttyS0`.
    pub address: String,
    /// Physical geo-location of the controller (if any).
    pub geo_location: Option<GeoLocation>,
    /// Current operating mode of the controller.
    pub op_mode: OpMode,
    /// Current job mode of the controller.
    pub job_mode: JobMode,
    /// Last set of cycle data (if any) received from the controller.
    pub last_cycle_data: Option<Vec<(String, Decimal)>>,
    /// Last-known states (if any) of controller variables.
    pub variables: Option<Vec<(String, Decimal)>>,
    /// Time of last connection.
    pub last_connection_time: Option<Timestamp>,
    /// Current logged-in user (if any) on the controller.
    pub operator: Option<Operator>,
    /// Active job ID (if any) on the controller.
    pub job_card_id: Option<String>,
    /// ID of the set of mold data currently loaded (if any).
    pub mold_id: Option<String>,
}

impl View for Operator {
    type V = OperatorView;

    open spec fn view(&self) -> OperatorView {
        OperatorView {
            operator_id: self.operator_id,
            operator_name: match self.operator_name {
                Some(n) => Some(n@),
                None => None,
            },
        }
    }
}

impl View for GeoLocation {
    type V = GeoLocationView;

    open spec fn view(&self) -> GeoLocationView {
        GeoLocationView { geo_latitude: self.geo_latitude@, geo_longitude: self.geo_longitude@ }
    }
}

/// The model of one cycle-data or variable map.
pub open spec fn map_view(v: Seq<(String, Decimal)>) -> Seq<(Seq<char>, Seq<char>)> {
    v.map_values(|p: (String, Decimal)| (p.0@, p.1@))
}

impl View for Controller {
    type V = ControllerView;

    open spec fn view(&self) -> ControllerView {
        ControllerView {
            controller_id: self.controller_id,
            display_name: match self.display_name {
                Some(n) => Some(n@),
                None => None,
            },
            controller_type: self.controller_type@,
            version: self.version@,
            model: self.model@,
            address: self.address@,
            geo_location: match self.geo_location {
                Some(g) => Some(g@),
                None => None,
            },
            op_mode: self.op_mode,
            job_mode: self.job_mode,
            last_cycle_data: match self.last_cycle_data {
                Some(v) => Some(map_view(v@)),
                None => None,
            },
            variables: match self.variables {
                Some(v) => Some(map_view(v@)),
                None => None,
            },
            last_connection_time: self.last_connection_time,
            operator: match self.operator {
                Some(o) => Some(o@),
                None => None,
            },
            job_card_id: match self.job_card_id {
                Some(s) => Some(s@),
                None => None,
            },
            mold_id: match self.mold_id {
                Some(s) => Some(s@),
                None => None,
            },
        }
    }
}

/// Well-formed operator: a non-zero user ID.
pub open spec fn operator_wf(o: OperatorView) -> bool {
    o.operator_id != 0
}

/// Well-formed geo-location: both coordinates are finite numerals.
pub open spec fn geo_wf(g: GeoLocationView) -> bool {
    crate::number::is_decimal_text(g.geo_latitude) && crate::number::is_decimal_text(
        g.geo_longitude,
    )
}

/// Well-formed cycle-data or variable map: every value a finite numeral.
pub open spec fn map_wf(m: Seq<(Seq<char>, Seq<char>)>) -> bool {
    forall|k: int| 0 <= k < m.len() ==> crate::number::is_decimal_text(#[trigger] m[k].1)
}

/// The keys of a cycle-data or variable map name distinct variables, as a
/// real map's keys do.
pub open spec fn map_keys_distinct(m: Seq<(Seq<char>, Seq<char>)>) -> bool {
    forall|a: int, b: int| 0 <= a < b < m.len() ==> (#[trigger] m[a].0) != (#[trigger] m[b].0)
}

/// Well-formed controller snapshot.  When either mode is `Offline` both
/// should be `Offline`; that is a caller contract, not enforced here.
pub open spec fn controller_wf(c: ControllerView) -> bool {
    &&& c.controller_id != 0
    &&& c.controller_type.len() > 0
    &&& c.version.len() > 0
    &&& c.model.len() > 0
    &&& (c.job_card_id matches Some(s) ==> s.len() > 0)
    &&& (c.mold_id matches Some(s) ==> s.len() > 0)
    &&& is_valid_address(c.address)
    &&& (c.geo_location matches Some(g) ==> geo_wf(g))
    &&& (c.last_cycle_data matches Some(m) ==> map_wf(m) && map_keys_distinct(m))
    &&& (c.variables matches Some(m) ==> map_wf(m) && map_keys_distinct(m))
    &&& (c.operator matches Some(o) ==> operator_wf(o))
    &&& (c.last_connection_time matches Some(t) ==> ts_wf(t))
}

impl Controller {
    /// Decides `controller_wf` exactly, reporting the first violated field
    /// in the order the checks run: the non-empty string fields, then the
    /// address grammar, then the identifiers and the timestamp.
    pub fn check(&self) -> (r: Result<(), OpenProtocolError>)
        ensures
            r is Ok <==> controller_wf(self@),
            r matches Err(e) ==> ({
                if self.controller_type@.len() == 0 {
                    is_invalid_field(e, "controller_type"@, self.controller_type@, "cannot be empty"@)
                } else if self.version@.len() == 0 {
                    is_invalid_field(e, "version"@, self.version@, "cannot be empty"@)
                } else if self.model@.len() == 0 {
                    is_invalid_field(e, "model"@, self.model@, "cannot be empty"@)
                } else if self.job_card_id matches Some(s) && s@.len() == 0 {
                    is_invalid_field(e, "job_card_id"@, Seq::empty(), "cannot be empty"@)
                } else if self.mold_id matches Some(s) && s@.len() == 0 {
                    is_invalid_field(e, "mold_id"@, Seq::empty(), "cannot be empty"@)
                } else if self.address@.len() == 0 {
                    is_invalid_field(e, "address"@, self.address@, "cannot be empty"@)
                } else if !is_valid_address(self.address@) {
                    let s = self.address@;
                    if !crate::validate::is_ip_syntax(s) {
                        is_invalid_field(e, "ip"@, s, Seq::empty())
                    } else if !crate::validate::ip_octets_ok(s) {
                        let e4 = crate::validate::ip_shape(s).unwrap().3;
                        is_invalid_field(
                            e,
                            "ip[address]"@,
                            s.subrange(0, e4),
                            "not a valid IPv4 address"@,
                        )
                    } else if crate::validate::ip_port_value(s) == 0 {
                        let e4 = crate::validate::ip_shape(s).unwrap().3;
                        is_invalid_field(
                            e,
                            "ip[port]"@,
                            s.subrange(e4 + 1, s.len() as int),
                            "IP port cannot be zero."@,
                        )
                    } else {
                        let e4 = crate::validate::ip_shape(s).unwrap().3;
                        is_invalid_field(
                            e,
                            "ip[port]"@,
                            s.subrange(e4 + 1, s.len() as int),
                            "not a valid IP port"@,
                        )
                    }
                } else if self.controller_id == 0 {
                    is_invalid_field(e, "controller_id"@, "0"@, "ID cannot be zero"@)
                } else if self.operator matches Some(o) && o.operator_id == 0 {
                    is_invalid_field(e, "operator_id"@, "0"@, "ID cannot be zero"@)
                } else if self.last_connection_time matches Some(t) && !ts_wf(t) {
                    is_invalid_field(e, "last_connection_time"@, Seq::empty(), "not a valid timestamp"@)
                } else if self.last_cycle_data matches Some(m) && !map_keys_distinct(map_view(m@)) {
                    is_invalid_field(e, "last_cycle_data"@, Seq::empty(), "duplicate key"@)
                } else {
                    is_invalid_field(e, "variables"@, Seq::empty(), "duplicate key"@)
                }
            }),
    {
        match check_string_empty(self.controller_type.as_str(), "controller_type") {
            Err(e) => {
                return Err(e);
            },
            Ok(()) => {},
        }
        match check_string_empty(self.version.as_str(), "version") {
            Err(e) => {
                return Err(e);
            },
            Ok(()) => {},
        }
        match check_string_empty(self.model.as_str(), "model") {
            Err(e) => {
                return Err(e);
            },
            Ok(()) => {},
        }
        match check_optional_str_empty(&self.job_card_id, "job_card_id") {
            Err(e) => {
                return Err(e);
            },
            Ok(()) => {},
        }
        match check_optional_str_empty(&self.mold_id, "mold_id") {
            Err(e) => {
                return Err(e);
            },
            Ok(()) => {},
        }
        match check_string_empty(self.address.as_str(), "address") {
            Err(e) => {
                return Err(e);
            },
            Ok(()) => {},
        }
        match check_address(self.address.as_str()) {
            Err(e) => {
                return Err(e);
            },
            Ok(()) => {},
        }
        if self.controller_id == 0 {
            return Err(
                OpenProtocolError::InvalidField {
                    field: String::from_str("controller_id"),
                    value: String::from_str("0"),
                    description: String::from_str("ID cannot be zero"),
                },
            );
        }
        match &self.operator {
            Some(o) => {
                if o.operator_id == 0 {
                    return Err(
                        OpenProtocolError::InvalidField {
                            field: String::from_str("operator_id"),
                            value: String::from_str("0"),
                            description: String::from_str("ID cannot be zero"),
                        },
                    );
                }
            },
            None => {},
        }
        match &self.last_connection_time {
            Some(t) => {
                if !t.valid() {
                    return Err(
                        OpenProtocolError::InvalidField {
                            field: String::from_str("last_connection_time"),
                            value: String::new(),
                            description: String::from_str("not a valid timestamp"),
                        },
                    );
                }
            },
            None => {},
        }
        match &self.geo_location {
            Some(g) => {
                proof {
                    use_type_invariant(&g.geo_latitude);
                    use_type_invariant(&g.geo_longitude);
                }
            },
            None => {},
        }
        match &self.last_cycle_data {
            Some(v) => {
                observe_map_wf(v);
                if !keys_distinct(v) {
                    return Err(
                        OpenProtocolError::InvalidField {
                            field: String::from_str("last_cycle_data"),
                            value: String::new(),
                            description: String::from_str("duplicate key"),
                        },
                    );
                }
            },
            None => {},
        }
        match &self.variables {
            Some(v) => {
                observe_map_wf(v);
                if !keys_distinct(v) {
                    return Err(
                        OpenProtocolError::InvalidField {
                            field: String::from_str("variables"),
                            value: String::new(),
                            description: String::from_str("duplicate key"),
                        },
                    );
                }
            },
            None => {},
        }
        Ok(())
    }
}

/// Walks a map to put on record that every held value is a finite
/// numeral, which the number type guarantees by construction.
fn observe_map_wf(v: &Vec<(String, Decimal)>)
    ensures
        map_wf(map_view(v@)),
{
    let mut k: usize = 0;
    while k < v.len()
        invariant
            0 <= k <= v@.len(),
            forall|m: int|
                0 <= m < k ==> crate::number::is_decimal_text(#[trigger] map_view(v@)[m].1),
        decreases v@.len() - k,
    {
        let d = &v[k].1;
        proof {
            use_type_invariant(d);
            assert(map_view(v@)[k as int].1 == d@);
        }
        k = k + 1;
    }
}

/// Decides whether every key of a map is distinct.
fn keys_distinct(v: &Vec<(String, Decimal)>) -> (b: bool)
    ensures
        b == map_keys_distinct(map_view(v@)),
{
    let ghost mv = map_view(v@);
    let mut i: usize = 0;
    let mut ok = true;
    while i < v.len()
        invariant
            0 <= i <= v@.len(),
            mv == map_view(v@),
            ok == (forall|a: int, b: int|
                0 <= a < b < i ==> (#[trigger] mv[a].0) != (#[trigger] mv[b].0)),
        decreases v@.len() - i,
    {
        let mut j: usize = 0;
        while j < i
            invariant
                0 <= j <= i < v@.len(),
                mv == map_view(v@),
                ok == ((forall|a: int, b: int|
                    0 <= a < b < i ==> (#[trigger] mv[a].0) != (#[trigger] mv[b].0)) && forall|
                    a: int,
                |
                    0 <= a < j ==> (#[trigger] mv[a].0) != mv[i as int].0),
            decreases i - j,
        {
            let same = crate::lex::str_eq(v[j].0.as_str(), v[i].0.as_str());
            proof {
                assert(mv[j as int].0 == v@[j as int].0@);
                assert(mv[i as int].0 == v@[i as int].0@);
            }
            ok = ok && !same;
            j = j + 1;
        }
        i = i + 1;
    }
    ok
}

impl Default for Controller {
    /// A placeholder snapshot: ID 1, unknown type, firmware and model, a
    /// valid placeholder network address, both modes unknown, and no
    /// optional data.
    fn default() -> (r: Self)
        ensures
            r.controller_id == 1,
            r.display_name is None,
            r.controller_type@ == "Unknown"@,
            r.version@ == "Unknown"@,
            r.model@ == "Unknown"@,
            r.address@ == "0.0.0.0:1"@,
            r.geo_location is None,
            r.op_mode is Unknown,
            r.job_mode is Unknown,
            r.last_cycle_data is None,
            r.variables is None,
            r.last_connection_time is None,
            r.operator is None,
            r.job_card_id is None,
            r.mold_id is None,
    {
        Controller {
            controller_id: 1,
            display_name: None,
            controller_type: String::from_str("Unknown"),
            version: String::from_str("Unknown"),
            model: String::from_str("Unknown"),
            address: String::from_str("0.0.0.0:1"),
            geo_location: None,
            op_mode: OpMode::Unknown,
            job_mode: JobMode::Unknown,
            last_cycle_data: None,
            variables: None,
            last_connection_time: None,
            operator: None,
            job_card_id: None,
            mold_id: None,
        }
    }
}

} // verus!
