use vstd::prelude::*;
use crate::hexstr::spec_hex_decode;

verus! {

/// The mathematical model of one interface record.
#[verifier::ext_equal]
pub struct RecordModel {
    pub signature: Seq<char>,
    pub selector: Seq<u8>,
    pub name: Seq<char>,
    pub is_static: bool,
    pub is_payable: bool,
    pub is_constructor: bool,
}

impl RecordModel {
    /// A record is well formed when its selector is the 4 bytes its sanitized
    /// name spells in hexadecimal, and it does not describe a constructor.
    pub open spec fn wf(self) -> bool {
        &&& self.selector.len() == 4
        &&& spec_hex_decode(self.name) == Some(self.selector)
        &&& !self.is_constructor
    }
}

/// One exposed function of a contract: its rendered parameter signature, its
/// 4-byte selector, its sanitized name, and its mutability flags.
#[derive(Debug)]
pub struct InterfaceRecord {
    pub signature: String,
    pub selector: Vec<u8>,
    pub name: String,
    pub is_static: bool,
    pub is_payable: bool,
    pub is_constructor: bool,
}

impl View for InterfaceRecord {
    type V = RecordModel;

    open spec fn view(&self) -> RecordModel {
        RecordModel {
            signature: self.signature@,
            selector: self.selector@,
            name: self.name@,
            is_static: self.is_static,
            is_payable: self.is_payable,
            is_constructor: self.is_constructor,
        }
    }
}

pub open spec fn views_of(rs: Seq<InterfaceRecord>) -> Seq<RecordModel> {
    rs.map_values(|r: InterfaceRecord| r@)
}

/// The failures the pipeline can report instead of aborting.
#[derive(Clone, Copy, Debug, PartialEq, Eq, Structural)]
pub enum FetchError {
    DecompileFailed,
    MalformedSelector,
    StoreReadFailed,
    StoreWriteFailed,
}

} // verus!
