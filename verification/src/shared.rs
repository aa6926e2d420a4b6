//! Data types exchanged between the engine and its front end.

use vstd::prelude::*;

verus! {

/// The kinds of values that a scan can look for.
#[derive(Debug, Clone, Copy, PartialEq, Eq, Structural)]
pub enum ValueType {
    Byte,
    Int16,
    Int32,
    Int64,
    Float32,
    Float64,
    String,
    AOB,
}

impl ValueType {
    /// The width in bytes of one stored value of this type.
    pub open spec fn spec_size(self) -> nat {
        match self {
            ValueType::Byte => 1,
            ValueType::Int16 => 2,
            ValueType::Int32 => 4,
            ValueType::Int64 => 8,
            ValueType::Float32 => 4,
            ValueType::Float64 => 8,
            ValueType::String => 1,
            ValueType::AOB => 1,
        }
    }

    /// Width in bytes of one value of this type; text and byte patterns are
    /// compared one byte at a time.
    pub fn size(&self) -> (n: usize)
        ensures
            n == self.spec_size(),
            1 <= n <= 8,
    {
        match self {
            ValueType::Byte => 1,
            ValueType::Int16 => 2,
            ValueType::Int32 => 4,
            ValueType::Int64 => 8,
            ValueType::Float32 => 4,
            ValueType::Float64 => 8,
            ValueType::String => 1,
            ValueType::AOB => 1,
        }
    }
}

} // verus!

verus! {

/// The view of a scan result: plain values and character sequences.
pub struct ScanResultView {
    pub address: usize,
    pub value_type: ValueType,
    pub label: Option<Seq<char>>,
    pub category: Seq<char>,
}

/// One address found by a scan, with what is known about the value there.
#[derive(Debug, Clone, PartialEq, Eq)]
pub struct ScanResult {
    pub address: usize,
    pub value_type: ValueType,
    pub label: Option<String>,
    pub category: String,
}

impl View for ScanResult {
    type V = ScanResultView;

    open spec fn view(&self) -> ScanResultView {
        ScanResultView {
            address: self.address,
            value_type: self.value_type,
            label: match self.label {
                Some(l) => Some(l@),
                None => None,
            },
            category: self.category@,
        }
    }
}

/// The category given to a result that names none: "Third Party".
pub fn default_category() -> (r: String)
    ensures
        r@ == "Third Party"@,
{
    String::from_str("Third Party")
}

/// A named group of saved results.
#[derive(Debug, Clone)]
pub struct VariableFolder {
    pub name: String,
    pub entries: Vec<ScanResult>,
}

/// A running process as the process list shows it.
#[derive(Debug, Clone)]
pub struct ProcessEntry {
    pub pid: u32,
    pub name: String,
    pub status: String,
    pub is_system: bool,
    pub category: String,
}

/// One line of the terminal.
#[derive(Debug, Clone)]
pub struct TerminalEntry {
    pub timestamp: String,
    pub content: String,
}

} // verus!
