//! What a point is, how it is read, and what a connector reports.

use crate::clock;
use crate::json::Json;
use crate::text;
use crate::text::{copy_opt, same_text};
use std::time::Duration;
use vstd::prelude::*;

verus! {

/// The type of a point's value.
#[derive(Clone, Copy, Debug, PartialEq, Eq, Structural)]
pub enum DataType {
    Bool,
    Int8,
    Uint8,
    Int16,
    Uint16,
    Int32,
    Uint32,
    Int64,
    Uint64,
    Float32,
    Float64,
    String,
    Bytes,
}

/// How a point's value is delivered: decoded, or as the bytes that were read.
#[derive(Clone, Copy, Debug, PartialEq, Eq, Structural)]
pub enum Mode {
    Typed,
    Raw,
}

/// How far a sample can be relied on.
#[derive(Clone, Copy, Debug, PartialEq, Eq, Structural)]
pub enum Quality {
    Good,
    Stale,
    Bad,
}

/// The order of the bytes in a word.
#[derive(Clone, Copy, Debug, PartialEq, Eq, Structural)]
pub enum Endianness {
    Big,
    Little,
}

/// The order of the words in a value.
#[derive(Clone, Copy, Debug, PartialEq, Eq, Structural)]
pub enum WordOrder {
    Big,
    Little,
}

/// What may be done with a point.
#[derive(Clone, Copy, Debug, PartialEq, Eq, Structural)]
pub enum Access {
    Read,
    Write,
    ReadWrite,
}

/// How a decoded value is scaled: by a power of ten.
#[derive(Clone, Copy, Debug, PartialEq, Eq, Structural)]
pub struct Transform {
    pub decimal_shift: i32,
}

impl Default for Transform {
    /// A value is left as it is.
    fn default() -> (r: Transform)
        ensures
            r.decimal_shift == 0,
    {
        Transform { decimal_shift: 0 }
    }
}

/// The byte order that a configured name stands for: big endian unless it is `little`.
pub open spec fn endianness_of(name: Option<Seq<char>>) -> Endianness {
    if name == Some("little"@) {
        Endianness::Little
    } else {
        Endianness::Big
    }
}

impl Endianness {
    /// The byte order that a configured name stands for.
    pub fn parse(name: Option<&str>) -> (r: Endianness)
        ensures
            r == endianness_of(opt_str(name)),
            (r == Endianness::Little) == (name is Some && name->0@ == "little"@),
    {
        match name {
            Some(s) => if same_text(s, "little") {
                Endianness::Little
            } else {
                Endianness::Big
            },
            None => Endianness::Big,
        }
    }
}

/// The word order that a configured name stands for: most significant first unless it is
/// `little`.
pub open spec fn word_order_of(name: Option<Seq<char>>) -> WordOrder {
    if name == Some("little"@) {
        WordOrder::Little
    } else {
        WordOrder::Big
    }
}

impl WordOrder {
    /// The word order that a configured name stands for.
    pub fn parse(name: Option<&str>) -> (r: WordOrder)
        ensures
            r == word_order_of(opt_str(name)),
            (r == WordOrder::Little) == (name is Some && name->0@ == "little"@),
    {
        match name {
            Some(s) => if same_text(s, "little") {
                WordOrder::Little
            } else {
                WordOrder::Big
            },
            None => WordOrder::Big,
        }
    }
}

/// The access that a configured name stands for: reading only, unless it says more.
pub open spec fn access_of(name: Option<Seq<char>>) -> Access {
    if name == Some("write"@) {
        Access::Write
    } else if name == Some("read_write"@) {
        Access::ReadWrite
    } else {
        Access::Read
    }
}

/// True when the access permits writes.
pub open spec fn writable(access: Access) -> bool {
    access == Access::Write || access == Access::ReadWrite
}

/// The name of an access.
pub open spec fn access_name(access: Access) -> Seq<char> {
    match access {
        Access::Read => "read"@,
        Access::Write => "write"@,
        Access::ReadWrite => "read_write"@,
    }
}

impl Access {
    /// The access that a configured name stands for.
    pub fn parse(name: Option<&str>) -> (r: Access)
        ensures
            r == access_of(opt_str(name)),
            (r == Access::Write) == (name is Some && name->0@ == "write"@),
            (r == Access::ReadWrite) == (name is Some && name->0@ == "read_write"@),
    {
        proof {
            lemma_access_names();
        }
        match name {
            Some(s) => if same_text(s, "write") {
                Access::Write
            } else if same_text(s, "read_write") {
                Access::ReadWrite
            } else {
                Access::Read
            },
            None => Access::Read,
        }
    }

    /// True when the access permits writes.
    pub fn can_write(&self) -> (r: bool)
        ensures
            r == writable(*self),
            r == !(*self == Access::Read),
    {
        match self {
            Access::Read => false,
            Access::Write => true,
            Access::ReadWrite => true,
        }
    }
}

/// The name of an access.
pub fn access_str(access: Access) -> (r: &'static str)
    ensures
        r@ == access_name(access),
{
    match access {
        Access::Read => "read",
        Access::Write => "write",
        Access::ReadWrite => "read_write",
    }
}

/// The names of the accesses are three.
proof fn lemma_access_names()
    ensures
        "read"@ != "write"@,
        "read"@ != "read_write"@,
        "write"@ != "read_write"@,
{
    reveal_strlit("read");
    reveal_strlit("write");
    reveal_strlit("read_write");
    assert("read"@.len() != "write"@.len());
    assert("read"@.len() != "read_write"@.len());
    assert("write"@.len() != "read_write"@.len());
}

/// An access is what its own name stands for.
pub proof fn access_name_reads_back(access: Access)
    ensures
        access_of(Some(access_name(access))) == access,
{
    lemma_access_names();
}

/// The characters of an optional text.
pub open spec fn opt_str(s: Option<&str>) -> Option<Seq<char>> {
    match s {
        Some(t) => Some(t@),
        None => None,
    }
}

/// The mode of a point: its own, else that of its device, else typed.
pub open spec fn mode_of(mode: Option<Mode>, device_default: Option<Mode>) -> Mode {
    match mode {
        Some(m) => m,
        None => match device_default {
            Some(m) => m,
            None => Mode::Typed,
        },
    }
}

/// The mode of a point: its own, else that of its device, else typed. The device's default
/// does count: the caller hands it in, so that no configuration is needed to ask.
pub fn resolve_mode(mode: Option<Mode>, device_default: Option<Mode>) -> (r: Mode)
    ensures
        r == mode_of(mode, device_default),
        mode matches Some(m) ==> r == m,
        mode is None && device_default is Some ==> r == device_default->0,
        mode is None && device_default is None ==> r == Mode::Typed,
{
    match mode {
        Some(m) => m,
        None => match device_default {
            Some(m) => m,
            None => Mode::Typed,
        },
    }
}

/// A point as a connector reads it, with everything resolved.
#[derive(Debug)]
pub struct PointRef {
    pub id: String,
    pub mode: Mode,
    pub datatype: Option<DataType>,
    pub endianness: Endianness,
    pub word_order: WordOrder,
    pub access: Access,
    pub unit: Option<String>,
    pub transform: Transform,
    pub interval: Option<Duration>,
}

/// What a [`PointRef`] holds, its interval in nanoseconds.
#[verifier::ext_equal]
pub struct PointView {
    pub id: Seq<char>,
    pub mode: Mode,
    pub datatype: Option<DataType>,
    pub endianness: Endianness,
    pub word_order: WordOrder,
    pub access: Access,
    pub unit: Option<Seq<char>>,
    pub transform: Transform,
    pub interval: Option<nat>,
}

impl View for PointRef {
    type V = PointView;

    open spec fn view(&self) -> PointView {
        PointView {
            id: self.id@,
            mode: self.mode,
            datatype: self.datatype,
            endianness: self.endianness,
            word_order: self.word_order,
            access: self.access,
            unit: text::opt_text(self.unit),
            transform: self.transform,
            interval: clock::opt_nanos(self.interval),
        }
    }
}

/// What points hold, one by one.
pub open spec fn point_views(points: Seq<PointRef>) -> Seq<PointView> {
    points.map_values(|p: PointRef| p@)
}

impl Clone for PointRef {
    fn clone(&self) -> (r: PointRef)
        ensures
            r@ == self@,
    {
        PointRef {
            id: self.id.clone(),
            mode: self.mode,
            datatype: self.datatype,
            endianness: self.endianness,
            word_order: self.word_order,
            access: self.access,
            unit: copy_opt(&self.unit),
            transform: self.transform,
            interval: self.interval,
        }
    }
}

/// The state of the link to a device.
#[derive(Clone, Copy, Debug, PartialEq, Eq, Structural)]
pub enum LinkStatus {
    Connected,
    Degraded,
    Disconnected,
}

/// The name of a link state.
pub open spec fn status_name(status: LinkStatus) -> Seq<char> {
    match status {
        LinkStatus::Connected => "connected"@,
        LinkStatus::Degraded => "degraded"@,
        LinkStatus::Disconnected => "disconnected"@,
    }
}

impl LinkStatus {
    /// The name of a link state.
    pub fn as_str(&self) -> (r: &'static str)
        ensures
            r@ == status_name(*self),
    {
        match self {
            LinkStatus::Connected => "connected",
            LinkStatus::Degraded => "degraded",
            LinkStatus::Disconnected => "disconnected",
        }
    }
}

/// What a connector reports of the link to one device.
#[derive(Debug)]
pub struct LinkReport {
    pub device: String,
    pub status: LinkStatus,
    pub reason: Option<String>,
    /// The device descriptor.
    pub info: Option<Json>,
}

/// Why a protocol module did not do what it was asked.
#[derive(Debug)]
pub enum ConnectorError {
    /// The transport failed, or did not answer in time.
    Transport(String),
    /// The module does not do this.
    Unsupported(String),
    /// The module has no such point on that device.
    UnknownPoint { device: String, point: String },
    /// The point does not permit it.
    AccessDenied(String),
    /// Anything else.
    Other(String),
}

/// What a protocol module can do.
#[derive(Clone, Debug)]
pub struct Capabilities {
    pub protocol: &'static str,
    pub version: &'static str,
    pub modes: Vec<Mode>,
    pub datatypes: Vec<DataType>,
    pub point_kinds: Vec<String>,
    pub command_verbs: Vec<String>,
    pub features: Vec<String>,
    pub subscribe: bool,
}

/// A configured name permits writing alone only where it is `write`, reading and writing only
/// where it is `read_write`, and any other name, or none, reading alone.
pub proof fn what_an_access_name_permits(name: Option<Seq<char>>)
    ensures
        access_of(name) == Access::Write <==> name == Some("write"@),
        access_of(name) == Access::ReadWrite <==> name == Some("read_write"@),
        access_of(name) == Access::Read <==> name != Some("write"@) && name != Some(
            "read_write"@,
        ),
        writable(access_of(name)) <==> name == Some("write"@) || name == Some("read_write"@),
{
    lemma_access_names();
}

/// Each access has a name of its own: `read`, `write` and `read_write`.
pub proof fn what_an_access_is_called(access: Access)
    ensures
        access_name(access) == "read"@ <==> access == Access::Read,
        access_name(access) == "write"@ <==> access == Access::Write,
        access_name(access) == "read_write"@ <==> access == Access::ReadWrite,
        writable(access) <==> access != Access::Read,
{
    lemma_access_names();
}

/// Bytes and words come in the little order only where the configured name says so.
pub proof fn an_order_is_big_unless_it_is_little(name: Option<Seq<char>>)
    ensures
        endianness_of(name) == Endianness::Little <==> name == Some("little"@),
        word_order_of(name) == WordOrder::Little <==> name == Some("little"@),
        endianness_of(name) == Endianness::Big <==> word_order_of(name) == WordOrder::Big,
{
}

/// A point's own mode comes before that of its device, and raw delivery is never a default.
pub proof fn a_mode_is_the_points_own_first(own: Mode, default: Option<Mode>)
    ensures
        mode_of(Some(own), default) == own,
        mode_of(None, Some(own)) == own,
        mode_of(None, default) == Mode::Raw <==> default == Some(Mode::Raw),
{
}

/// Each link state has a name of its own: `connected`, `degraded` and `disconnected`.
pub proof fn what_a_link_state_is_called(status: LinkStatus)
    ensures
        status_name(status) == "connected"@ <==> status == LinkStatus::Connected,
        status_name(status) == "degraded"@ <==> status == LinkStatus::Degraded,
        status_name(status) == "disconnected"@ <==> status == LinkStatus::Disconnected,
{
    reveal_strlit("connected");
    reveal_strlit("degraded");
    reveal_strlit("disconnected");
    assert("connected"@.len() == 9 && "degraded"@.len() == 8 && "disconnected"@.len() == 12);
}

} // verus!
