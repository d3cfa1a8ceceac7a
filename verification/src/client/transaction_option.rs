//! The caller's choices for one outgoing transaction.

use vstd::prelude::*;

verus! {

/// What a [`TransactionOption`] holds, as plain values.
pub struct OptionView {
    pub code: Seq<char>,
    pub address: Seq<char>,
    pub current_height: Option<u64>,
    pub quota: Option<u64>,
    pub value: Option<Seq<char>>,
}

/// The choices of a freshly made option: code and address are the bare
/// prefix "0x", and height, quota and value are left open.
pub open spec fn initial_option() -> OptionView {
    OptionView {
        code: "0x"@,
        address: "0x"@,
        current_height: None,
        quota: None,
        value: None,
    }
}

/// Transaction parameter option.
pub struct TransactionOption<'a> {
    code: &'a str,
    address: &'a str,
    current_height: Option<u64>,
    quota: Option<u64>,
    value: Option<&'a str>,
}

impl<'a> View for TransactionOption<'a> {
    type V = OptionView;

    closed spec fn view(&self) -> OptionView {
        OptionView {
            code: self.code@,
            address: self.address@,
            current_height: self.current_height,
            quota: self.quota,
            value: match self.value {
                Some(v) => Some(v@),
                None => None,
            },
        }
    }
}

impl<'a> TransactionOption<'a> {
    /// Default option.
    pub fn new() -> (option: Self)
        ensures
            option@ == initial_option(),
    {
        TransactionOption {
            code: "0x",
            address: "0x",
            current_height: None,
            quota: None,
            value: None,
        }
    }

    /// Set code. Transaction content, default is "0x".
    pub fn set_code(self, code: &'a str) -> (option: Self)
        ensures
            option@ == (OptionView { code: code@, ..self@ }),
    {
        TransactionOption { code: code, ..self }
    }

    /// Get code.
    pub fn code(&self) -> (code: &str)
        ensures
            code@ == self@.code,
    {
        self.code
    }

    /// Set address. Contract address, default is "0x", which creates the
    /// contract.
    pub fn set_address(self, address: &'a str) -> (option: Self)
        ensures
            option@ == (OptionView { address: address@, ..self@ }),
    {
        TransactionOption { address: address, ..self }
    }

    /// Get address.
    pub fn address(&self) -> (address: &str)
        ensures
            address@ == self@.address,
    {
        self.address
    }

    /// Set current height. The default is `None`: the height is then asked
    /// of the chain before the transaction is built.
    pub fn set_current_height(self, height: Option<u64>) -> (option: Self)
        ensures
            option@ == (OptionView { current_height: height, ..self@ }),
    {
        TransactionOption { current_height: height, ..self }
    }

    /// Get current height.
    pub fn current_height(&self) -> (height: Option<u64>)
        ensures
            height == self@.current_height,
    {
        self.current_height
    }

    /// Set quota. Transaction consumption quota limit.
    pub fn set_quota(self, quota: Option<u64>) -> (option: Self)
        ensures
            option@ == (OptionView { quota: quota, ..self@ }),
    {
        TransactionOption { quota: quota, ..self }
    }

    /// Get quota.
    pub fn quota(&self) -> (quota: Option<u64>)
        ensures
            quota == self@.quota,
    {
        self.quota
    }

    /// Set value. Transaction transfer amount.
    pub fn set_value(self, value: Option<&'a str>) -> (option: Self)
        ensures
            option@.value == match value {
                Some(v) => Some(v@),
                None => None,
            },
            option@ == (OptionView { value: option@.value, ..self@ }),
    {
        TransactionOption { value: value, ..self }
    }

    /// Get value.
    pub fn value(&self) -> (value: Option<&str>)
        ensures
            value is Some == self@.value is Some,
            value is Some ==> value->0@ == self@.value->0,
    {
        self.value
    }

    /// Restore initialization status.
    pub fn clear(&mut self)
        ensures
            final(self)@ == initial_option(),
    {
        self.value = None;
        self.quota = None;
        self.current_height = None;
        self.address = "0x";
        self.code = "0x";
    }
}

} // verus!
