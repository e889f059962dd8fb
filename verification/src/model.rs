//! The protocol's constant tables: connection types, memory-area codes,
//! word-length codes, block types, server mask kinds, tunable parameters
//! and server event bits. Each symbolic name maps to the numeric value
//! the wire protocol uses.

use vstd::prelude::*;

verus! {

pub const EVC_SERVER_STARTED: u32 = 0x00000001;

pub const EVC_SERVER_STOPPED: u32 = 0x00000002;

pub const EVC_LISTENER_CANNOT_START: u32 = 0x00000004;

pub const EVC_CLIENT_ADDED: u32 = 0x00000008;

pub const EVC_CLIENT_REJECTED: u32 = 0x00000010;

pub const EVC_CLIENT_NO_ROOM: u32 = 0x00000020;

pub const EVC_CLIENT_EXCEPTION: u32 = 0x00000040;

pub const EVC_CLIENT_DISCONNECTED: u32 = 0x00000080;

pub const EVC_CLIENT_TERMINATED: u32 = 0x00000100;

pub const EVC_CLIENTS_DROPPED: u32 = 0x00000200;

pub const EVC_RESERVED_00000400: u32 = 0x00000400;

pub const EVC_RESERVED_00000800: u32 = 0x00000800;

pub const EVC_RESERVED_00001000: u32 = 0x00001000;

pub const EVC_RESERVED_00002000: u32 = 0x00002000;

pub const EVC_RESERVED_00004000: u32 = 0x00004000;

pub const EVC_RESERVED_00008000: u32 = 0x00008000;

pub const EVC_PDU_INCOMING: u32 = 0x00010000;

pub const EVC_DATA_READ: u32 = 0x00020000;

pub const EVC_DATA_WRITE: u32 = 0x00040000;

pub const EVC_NEGOTIATE_PDU: u32 = 0x00080000;

pub const EVC_READ_SZL: u32 = 0x00100000;

pub const EVC_CLOCK: u32 = 0x00200000;

pub const EVC_UPLOAD: u32 = 0x00400000;

pub const EVC_DOWNLOAD: u32 = 0x00800000;

pub const EVC_DIRECTORY: u32 = 0x01000000;

pub const EVC_SECURITY: u32 = 0x02000000;

pub const EVC_CONTROL: u32 = 0x04000000;

pub const EVC_RESERVED_08000000: u32 = 0x08000000;

pub const EVC_RESERVED_10000000: u32 = 0x10000000;

pub const EVC_RESERVED_20000000: u32 = 0x20000000;

pub const EVC_RESERVED_40000000: u32 = 0x40000000;

pub const EVC_RESERVED_80000000: u32 = 0x80000000;

/// A client connection type: programming console, operator panel, or a
/// basic S7 connection with an explicit type value.
#[derive(Clone, Copy, Debug, PartialEq, Eq, Structural)]
pub enum ConnType {
    PG,
    OP,
    S7Basic(u16),
}

pub open spec fn conn_type_value(c: ConnType) -> int {
    match c {
        ConnType::PG => 1,
        ConnType::OP => 2,
        ConnType::S7Basic(v) => v as int,
    }
}

impl ConnType {
    /// The connection-type value handed to the transport.
    pub fn value(&self) -> (v: u16)
        ensures
            v as int == conn_type_value(*self),
    {
        match *self {
            ConnType::PG => 0x01,
            ConnType::OP => 0x02,
            ConnType::S7Basic(v) => v,
        }
    }
}

/// Which server mask a mask operation addresses.
#[derive(Clone, Copy, Debug, PartialEq, Eq, Structural)]
pub enum MaskKind {
    /// The event mask.
    Event,
    /// The log mask.
    Log,
}

pub open spec fn mask_kind_value(k: MaskKind) -> int {
    match k {
        MaskKind::Event => 0,
        MaskKind::Log => 1,
    }
}

impl MaskKind {
    pub fn value(&self) -> (v: i32)
        ensures
            v as int == mask_kind_value(*self),
    {
        match *self {
            MaskKind::Event => 0,
            MaskKind::Log => 1,
        }
    }
}

/// A server-side memory area kind.
#[derive(Clone, Copy, Debug, PartialEq, Eq, Structural)]
pub enum AreaCode {
    /// Inputs.
    S7AreaPE,
    /// Outputs.
    S7AreaPA,
    /// Merkers.
    S7AreaMK,
    /// Counters.
    S7AreaCT,
    /// Timers.
    S7AreaTM,
    /// Data blocks.
    S7AreaDB,
}

pub open spec fn area_code_value(a: AreaCode) -> int {
    match a {
        AreaCode::S7AreaPE => 0,
        AreaCode::S7AreaPA => 1,
        AreaCode::S7AreaMK => 2,
        AreaCode::S7AreaCT => 3,
        AreaCode::S7AreaTM => 4,
        AreaCode::S7AreaDB => 5,
    }
}

impl AreaCode {
    pub fn value(&self) -> (v: i32)
        ensures
            v as int == area_code_value(*self),
    {
        match *self {
            AreaCode::S7AreaPE => 0,
            AreaCode::S7AreaPA => 1,
            AreaCode::S7AreaMK => 2,
            AreaCode::S7AreaCT => 3,
            AreaCode::S7AreaTM => 4,
            AreaCode::S7AreaDB => 5,
        }
    }
}

/// A tunable transport parameter.
#[derive(Clone, Copy, Debug, PartialEq, Eq, Structural)]
pub enum InternalParam {
    /// Local socket port.
    LocalPort,
    /// Remote socket port.
    RemotePort,
    /// Client ping timeout.
    PingTimeout,
    /// Socket send timeout.
    SendTimeout,
    /// Socket receive timeout.
    RecvTimeout,
    /// Socket work interval.
    WorkInterval,
    /// ISO-TCP source reference.
    SrcRef,
    /// ISO-TCP destination reference.
    DstRef,
    /// ISO-TCP source TSAP.
    SrcTSap,
    /// Initial PDU request length.
    PDURequest,
    /// Maximum number of clients.
    MaxClients,
    /// BSend send timeout.
    BSendTimeout,
    /// BSend receive timeout.
    BRecvTimeout,
    /// Connection recovery time.
    RecoveryTime,
    /// Partner keep-alive time.
    KeepAliveTime,
}

pub open spec fn internal_param_value(p: InternalParam) -> int {
    match p {
        InternalParam::LocalPort => 1,
        InternalParam::RemotePort => 2,
        InternalParam::PingTimeout => 3,
        InternalParam::SendTimeout => 4,
        InternalParam::RecvTimeout => 5,
        InternalParam::WorkInterval => 6,
        InternalParam::SrcRef => 7,
        InternalParam::DstRef => 8,
        InternalParam::SrcTSap => 9,
        InternalParam::PDURequest => 10,
        InternalParam::MaxClients => 11,
        InternalParam::BSendTimeout => 12,
        InternalParam::BRecvTimeout => 13,
        InternalParam::RecoveryTime => 14,
        InternalParam::KeepAliveTime => 15,
    }
}

impl InternalParam {
    pub fn value(&self) -> (v: i32)
        ensures
            v as int == internal_param_value(*self),
    {
        match *self {
            InternalParam::LocalPort => 1,
            InternalParam::RemotePort => 2,
            InternalParam::PingTimeout => 3,
            InternalParam::SendTimeout => 4,
            InternalParam::RecvTimeout => 5,
            InternalParam::WorkInterval => 6,
            InternalParam::SrcRef => 7,
            InternalParam::DstRef => 8,
            InternalParam::SrcTSap => 9,
            InternalParam::PDURequest => 10,
            InternalParam::MaxClients => 11,
            InternalParam::BSendTimeout => 12,
            InternalParam::BRecvTimeout => 13,
            InternalParam::RecoveryTime => 14,
            InternalParam::KeepAliveTime => 15,
        }
    }
}

/// The value carried by a tunable parameter.
#[derive(Clone, Copy, Debug, PartialEq, Eq, Structural)]
pub enum InternalParamValue {
    U16(u16),
    I32(i32),
    U32(u32),
}

/// A client-side memory area code as it appears in read/write requests.
#[derive(Clone, Copy, Debug, PartialEq, Eq, Structural)]
pub enum AreaTable {
    /// Inputs.
    S7AreaPE,
    /// Outputs.
    S7AreaPA,
    /// Merkers.
    S7AreaMK,
    /// Data blocks.
    S7AreaDB,
    /// Counters.
    S7AreaCT,
    /// Timers.
    S7AreaTM,
}

pub open spec fn area_table_value(a: AreaTable) -> int {
    match a {
        AreaTable::S7AreaPE => 0x81,
        AreaTable::S7AreaPA => 0x82,
        AreaTable::S7AreaMK => 0x83,
        AreaTable::S7AreaDB => 0x84,
        AreaTable::S7AreaCT => 0x1c,
        AreaTable::S7AreaTM => 0x1d,
    }
}

impl AreaTable {
    pub fn value(&self) -> (v: i32)
        ensures
            v as int == area_table_value(*self),
    {
        match *self {
            AreaTable::S7AreaPE => 0x81,
            AreaTable::S7AreaPA => 0x82,
            AreaTable::S7AreaMK => 0x83,
            AreaTable::S7AreaDB => 0x84,
            AreaTable::S7AreaCT => 0x1c,
            AreaTable::S7AreaTM => 0x1d,
        }
    }
}

/// The word length a read/write request addresses.
#[derive(Clone, Copy, Debug, PartialEq, Eq, Structural)]
pub enum WordLenTable {
    /// One bit.
    S7WLBit,
    /// One byte.
    S7WLByte,
    /// Two bytes.
    S7WLWord,
    /// Four bytes.
    S7WLDWord,
    /// Four bytes, floating point.
    S7WLReal,
    /// A counter cell, two bytes.
    S7WLCounter,
    /// A timer cell, two bytes.
    S7WLTimer,
}

pub open spec fn word_len_value(w: WordLenTable) -> int {
    match w {
        WordLenTable::S7WLBit => 0x01,
        WordLenTable::S7WLByte => 0x02,
        WordLenTable::S7WLWord => 0x04,
        WordLenTable::S7WLDWord => 0x06,
        WordLenTable::S7WLReal => 0x08,
        WordLenTable::S7WLCounter => 0x1c,
        WordLenTable::S7WLTimer => 0x1d,
    }
}

impl WordLenTable {
    pub fn value(&self) -> (v: i32)
        ensures
            v as int == word_len_value(*self),
    {
        match *self {
            WordLenTable::S7WLBit => 0x01,
            WordLenTable::S7WLByte => 0x02,
            WordLenTable::S7WLWord => 0x04,
            WordLenTable::S7WLDWord => 0x06,
            WordLenTable::S7WLReal => 0x08,
            WordLenTable::S7WLCounter => 0x1c,
            WordLenTable::S7WLTimer => 0x1d,
        }
    }
}

/// A program or data block kind.
#[derive(Clone, Copy, Debug, PartialEq, Eq, Structural)]
pub enum BlockType {
    BlockOB,
    BlockDB,
    BlockSDB,
    BlockFC,
    BlockSFC,
    BlockFB,
    BlockSFB,
}

pub open spec fn block_type_value(b: BlockType) -> int {
    match b {
        BlockType::BlockOB => 0x38,
        BlockType::BlockDB => 0x41,
        BlockType::BlockSDB => 0x42,
        BlockType::BlockFC => 0x43,
        BlockType::BlockSFC => 0x44,
        BlockType::BlockFB => 0x45,
        BlockType::BlockSFB => 0x46,
    }
}

impl BlockType {
    pub fn value(&self) -> (v: i32)
        ensures
            v as int == block_type_value(*self),
    {
        match *self {
            BlockType::BlockOB => 0x38,
            BlockType::BlockDB => 0x41,
            BlockType::BlockSDB => 0x42,
            BlockType::BlockFC => 0x43,
            BlockType::BlockSFC => 0x44,
            BlockType::BlockFB => 0x45,
            BlockType::BlockSFB => 0x46,
        }
    }
}

} // verus!
