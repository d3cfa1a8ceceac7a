//! A client's view of one contract: the address it is bound to, and the
//! calls that are prepared for it.

use vstd::prelude::*;
use vstd::pervasive::unreached;
use crate::abi::Kind;
use crate::abi_call::{find_bad_kind, lemma_no_bad_kind, selector};
use crate::abi_encode::{lemma_arguments_ok, put_list};
use crate::abi_kinds::{copy_kind, same_kind};
use crate::abi::list_encoding;
use crate::abi_text::{
    call_outcome, lemma_parsed_fit, lemma_unparsed_bound, parse_arguments, parsed_values,
};
use crate::address::{address_text, is_address_text, Address};
use crate::client::transaction_option::{initial_option, OptionView, TransactionOption};
use crate::client::without_0x;
use crate::error::ToolError;
use vstd::string::StrSliceExecFns;
use crate::text::{hex_text, hex_value, same_text, to_prefixed_hex};

verus! {

/// A function of a contract: its signature, and the kinds of its
/// parameters in order.
#[derive(Debug, PartialEq, Eq)]
pub struct Function {
    signature: String,
    inputs: Kind,
}

/// Where the first opening parenthesis stands from `i` on, or the length
/// where there is none.
pub open spec fn paren_from(text: Seq<char>, i: int) -> int
    decreases text.len() - i,
{
    if i < 0 || i >= text.len() {
        text.len() as int
    } else if text[i] == '(' {
        i
    } else {
        paren_from(text, i + 1)
    }
}

/// The name of the function with the given signature: what stands in
/// front of the first opening parenthesis.
pub open spec fn name_of(signature: Seq<char>) -> Seq<char> {
    signature.subrange(0, paren_from(signature, 0))
}

/// The index of the first of the first `n` functions that has the name.
pub open spec fn first_named(functions: Seq<Function>, name: Seq<char>, n: nat) -> Option<nat>
    decreases n,
{
    if n == 0 || n > functions.len() {
        None
    } else {
        match first_named(functions, name, (n - 1) as nat) {
            Some(i) => Some(i),
            None => if name_of(functions[n - 1].signature_text()) == name {
                Some((n - 1) as nat)
            } else {
                None
            },
        }
    }
}

/// The first function with a name among fewer is the first among more.
proof fn lemma_named_stays(functions: Seq<Function>, name: Seq<char>, m: nat, n: nat)
    requires
        m <= n <= functions.len(),
        first_named(functions, name, m) is Some,
    ensures
        first_named(functions, name, n) == first_named(functions, name, m),
    decreases n,
{
    if m < n {
        lemma_named_stays(functions, name, m, (n - 1) as nat);
    }
}

/// The function that is found stands among the functions looked at.
proof fn lemma_named_bound(functions: Seq<Function>, name: Seq<char>, n: nat)
    requires
        first_named(functions, name, n) is Some,
    ensures
        first_named(functions, name, n)->0 < n,
        n <= functions.len(),
    decreases n,
{
    if n > 0 && first_named(functions, name, (n - 1) as nat) is Some {
        lemma_named_bound(functions, name, (n - 1) as nat);
    }
}

impl Function {
    #[verifier::type_invariant]
    spec fn valid(self) -> bool {
        self.inputs is Tuple
    }

    /// The signature of the function.
    pub closed spec fn signature_text(self) -> Seq<char> {
        self.signature@
    }

    /// The kinds of the function's parameters.
    pub closed spec fn declared(self) -> Vec<Kind> {
        self.inputs->Tuple_0
    }

    /// The bytes of the function's signature.
    pub open spec fn signature_bytes(self) -> Seq<u8> {
        vstd::utf8::encode_utf8(self.signature_text())
    }

    /// The function with the given signature and parameter kinds.
    pub fn new(signature: String, kinds: Vec<Kind>) -> (function: Function)
        ensures
            function.signature_text() == signature@,
            function.declared() == kinds,
    {
        Function { signature, inputs: Kind::Tuple(kinds) }
    }

    /// The signature of the function.
    pub fn signature(&self) -> (text: &str)
        ensures
            text@ == self.signature_text(),
    {
        self.signature.as_str()
    }

    /// The kinds of the function's parameters.
    pub fn kinds(&self) -> (kinds: &Vec<Kind>)
        ensures
            *kinds == self.declared(),
    {
        proof {
            use_type_invariant(self);
        }
        match &self.inputs {
            Kind::Tuple(kinds) => kinds,
            _ => unreached(),
        }
    }

    /// The name of the function: its signature up to the first opening
    /// parenthesis.
    pub fn name(&self) -> (name: &str)
        ensures
            name@ == name_of(self.signature_text()),
    {
        let text = self.signature.as_str();
        let n = text.unicode_len();
        let mut i: usize = 0;
        while i < n
            invariant
                i <= n,
                n == text@.len(),
                text@ == self.signature_text(),
                paren_from(text@, 0) == paren_from(text@, i as int),
            decreases n - i,
        {
            if text.get_char(i) == '(' {
                assert(paren_from(text@, i as int) == i);
                return text.substring_char(0, i);
            }
            i += 1;
        }
        assert(paren_from(text@, n as int) == n);
        text.substring_char(0, n)
    }

    /// The call data of a call of the function: its selector, then the
    /// arguments, each read from its text as the kind declared at its
    /// place. The error for a text that is no value of its kind holds a
    /// copy of that kind.
    pub fn encode(&self, arguments: &Vec<String>) -> (r: Result<Vec<u8>, ToolError>)
        ensures
            match r {
                Ok(bytes) => {
                    &&& call_outcome(self.signature_bytes(), self.declared(), arguments@) == Ok::<
                        Seq<u8>,
                        ToolError,
                    >(bytes@)
                    &&& bytes@.len() == 4 + argument_bytes(self.declared(), arguments@).len()
                },
                Err(ToolError::TypeMismatch { index, declared }) => {
                    &&& index < self.declared()@.len()
                    &&& call_outcome(self.signature_bytes(), self.declared(), arguments@) == Err::<
                        Seq<u8>,
                        ToolError,
                    >(
                        ToolError::TypeMismatch {
                            index,
                            declared: self.declared()@[index as int],
                        },
                    )
                    &&& same_kind(self.declared()@[index as int], declared)
                },
                Err(e) => call_outcome(self.signature_bytes(), self.declared(), arguments@)
                    == Err::<Seq<u8>, ToolError>(e),
            },
    {
        proof {
            use_type_invariant(self);
        }
        let kinds = self.kinds();
        proof {
            lemma_no_bad_kind(kinds@, kinds@.len());
        }
        match find_bad_kind(kinds) {
            Some(index) => { return Err(ToolError::UnknownType { index }); },
            None => {},
        }
        if kinds.len() != arguments.len() {
            return Err(ToolError::ArityError { expected: kinds.len(), found: arguments.len() });
        }
        let values = match parse_arguments(kinds, arguments) {
            Ok(values) => values,
            Err(index) => {
                proof {
                    lemma_unparsed_bound(kinds@, arguments@, kinds@.len());
                }
                let declared = copy_kind(&kinds[index]);
                return Err(ToolError::TypeMismatch { index, declared });
            },
        };
        proof {
            lemma_parsed_fit(*kinds, arguments@, kinds@.len());
            lemma_arguments_ok(*kinds);
        }
        let mut out = selector(self.signature.as_str());
        let ghost head = out@;
        if put_list(&mut out, &self.inputs, &values, kinds.len()) {
            let total = out.len();
            proof {
                assert(out@.len() == total);
                assert(head.len() == 4);
            }
            Ok(out)
        } else {
            Err(ToolError::Oversized)
        }
    }
}

/// The bytes of the arguments of a call, without the selector.
pub open spec fn argument_bytes(kinds: Vec<Kind>, arguments: Seq<String>) -> Seq<u8> {
    list_encoding(Kind::Tuple(kinds), parsed_values(kinds@, arguments), kinds@.len())
}

/// The first function with the given name.
pub fn function_named<'a>(functions: &'a Vec<Function>, name: &str) -> (r: Option<&'a Function>)
    ensures
        match first_named(functions@, name@, functions@.len()) {
            Some(i) => r == Some(&functions@[i as int]),
            None => r is None,
        },
{
    let mut i: usize = 0;
    while i < functions.len()
        invariant
            i <= functions@.len(),
            first_named(functions@, name@, i as nat) is None,
        decreases functions@.len() - i,
    {
        if same_text(functions[i].name(), name) {
            proof {
                lemma_named_stays(functions@, name@, (i + 1) as nat, functions@.len());
            }
            return Some(&functions[i]);
        }
        i += 1;
    }
    None
}

/// What a prepared call hands to the sender: the call data and the target,
/// both as prefixed hexadecimal text.
#[derive(Debug, PartialEq, Eq)]
pub struct CallArgs {
    pub code: String,
    pub to_address: String,
}

/// A contract at a fixed address, with the functions that its interface
/// declares.
#[derive(Debug, PartialEq, Eq)]
pub struct BoundContract {
    address: Address,
    functions: Vec<Function>,
}

/// A bound contract as plain values.
pub struct BoundView {
    pub address: Seq<u8>,
    pub functions: Seq<Function>,
}

impl View for BoundContract {
    type V = BoundView;

    closed spec fn view(&self) -> BoundView {
        BoundView { address: self.address@, functions: self.functions@ }
    }
}

/// The address that a call goes to: the one named for the call, else the
/// contract's own.
pub open spec fn call_target(own: Seq<u8>, named: Option<Address>) -> Seq<u8> {
    match named {
        Some(address) => address@,
        None => own,
    }
}

/// What preparing a call of the function `name` with the arguments
/// `values` gives: the call data of the first function of that name, or
/// the reason why there is none.
pub open spec fn prepared(functions: Seq<Function>, name: Seq<char>, values: Seq<String>)
    -> Result<Seq<u8>, ToolError> {
    match first_named(functions, name, functions.len()) {
        Some(i) => call_outcome(
            functions[i as int].signature_bytes(),
            functions[i as int].declared(),
            values,
        ),
        None => Err(ToolError::UnknownFunction),
    }
}

impl BoundContract {
    /// Bind a contract to the address that `address_text` spells and to the
    /// functions of its interface.
    pub fn new(address_text: &str, functions: Vec<Function>) -> (r: Result<
        BoundContract,
        ToolError,
    >)
        ensures
            r is Ok <==> is_address_text(address_text@),
            r is Ok ==> r->Ok_0@.address == hex_value(without_0x(address_text@)),
            r is Ok ==> r->Ok_0@.functions == functions@,
            r is Err ==> r->Err_0 == ToolError::MalformedAddress,
    {
        match Address::from_text(address_text) {
            Ok(address) => Ok(BoundContract { address, functions }),
            Err(e) => Err(e),
        }
    }

    /// The address that the contract is bound to.
    pub fn address(&self) -> (address: Address)
        ensures
            address@ == self@.address,
    {
        self.address
    }

    /// The functions that the contract's interface declares.
    pub fn functions(&self) -> (functions: &Vec<Function>)
        ensures
            functions@ == self@.functions,
    {
        &self.functions
    }

    /// Prepare a call of the function `name` with the arguments written in
    /// `values`: the result holds the call data, as "0x" and two digits for
    /// each byte, and the target, which is `to_addr` where one is named and
    /// the contract's own address else. A name that the interface does not
    /// declare is refused, and so is whatever the arguments do not encode
    /// for; the error for a text that is no value of its kind holds a copy
    /// of that kind.
    pub fn prepare_call_args(&self, name: &str, values: &Vec<String>, to_addr: Option<Address>) -> (r:
        Result<CallArgs, ToolError>)
        ensures
            match r {
                Ok(args) => {
                    &&& prepared(self@.functions, name@, values@) is Ok
                    &&& args.code@ == "0x"@ + hex_text(
                        prepared(self@.functions, name@, values@)->Ok_0,
                    )
                    &&& args.code@.len() == 2 + 2 * prepared(
                        self@.functions,
                        name@,
                        values@,
                    )->Ok_0.len()
                    &&& args.code@.len() == 2 + 2 * (4 + argument_bytes(
                        self@.functions[first_named(
                            self@.functions,
                            name@,
                            self@.functions.len(),
                        )->0 as int].declared(),
                        values@,
                    ).len())
                    &&& args.to_address@ == address_text(call_target(self@.address, to_addr))
                },
                Err(ToolError::TypeMismatch { index, declared }) => {
                    &&& prepared(self@.functions, name@, values@) matches Err(
                        ToolError::TypeMismatch { index: at, declared: kind },
                    ) && at == index && same_kind(kind, declared)
                },
                Err(e) => prepared(self@.functions, name@, values@) == Err::<Seq<u8>, ToolError>(
                    e,
                ),
            },
    {
        let function = match function_named(&self.functions, name) {
            Some(function) => function,
            None => { return Err(ToolError::UnknownFunction); },
        };
        let data = match function.encode(values) {
            Ok(data) => data,
            Err(e) => { return Err(e); },
        };
        let target = match to_addr {
            Some(address) => address,
            None => self.address,
        };
        let code = to_prefixed_hex(data.as_slice());
        proof {
            reveal_strlit("0x");
        }
        Ok(CallArgs { code, to_address: target.to_text() })
    }
}

/// The choices with which a prepared call is sent: its code, its target
/// and the quota, with height and value left open.
pub fn send_option<'a>(args: &'a CallArgs, quota: Option<u64>) -> (option: TransactionOption<'a>)
    ensures
        option@ == (OptionView {
            code: args.code@,
            address: args.to_address@,
            quota: quota,
            ..initial_option()
        }),
{
    TransactionOption::new().set_code(args.code.as_str()).set_address(
        args.to_address.as_str(),
    ).set_quota(quota)
}

/// One setting of a contract declaration: a key and its text.
#[derive(Debug, PartialEq, Eq)]
pub struct MetaItem {
    pub key: String,
    pub value: String,
}

/// An annotation on a declaration: the segments of its path, and its
/// settings where it lists any.
#[derive(Debug, PartialEq, Eq)]
pub struct Attribute {
    pub path: Vec<String>,
    pub items: Option<Vec<MetaItem>>,
}

/// Whether an annotation is a contract declaration: its path is the one
/// word `contract`, and it lists settings.
pub open spec fn is_contract_attribute(attribute: Attribute) -> bool {
    &&& attribute.path@.len() == 1
    &&& attribute.path@[0]@ == "contract"@
    &&& attribute.items is Some
}

/// The settings of an annotation, where it is a contract declaration.
pub fn get_contract_meta_items(attribute: &Attribute) -> (items: Option<&Vec<MetaItem>>)
    ensures
        items is Some <==> is_contract_attribute(*attribute),
        items is Some ==> *items->0 == attribute.items->0,
{
    if attribute.path.len() == 1 && same_text(attribute.path[0].as_str(), "contract") {
        match &attribute.items {
            Some(items) => Some(items),
            None => None,
        }
    } else {
        None
    }
}

/// What a contract declaration is attached to.
#[derive(Debug, PartialEq, Eq)]
pub enum Shape {
    /// A record, with the names of its fields; a field without a name
    /// counts as the empty name.
    Struct { named: bool, fields: Vec<String> },
    /// Anything else.
    Other,
}

/// The settings of a contract declaration: the name of the interface, the
/// contract's address, and where its interface description lies.
#[derive(Debug, PartialEq, Eq)]
pub struct ContractMeta {
    pub name: String,
    pub addr: String,
    pub path: String,
}

/// Why a contract declaration is refused.
#[derive(Debug, Clone, Copy, PartialEq, Eq, Structural)]
pub enum MetaError {
    /// No path is set.
    PathMissing,
    /// No address is set.
    AddressMissing,
    /// No interface name is set.
    NameMissing,
    /// The declaration is attached to something other than a record.
    NotAStruct,
    /// The record has fewer than three named fields.
    TooFewFields,
    /// The record lacks one of the fields `client`, `address`, `contract`.
    FieldsMissing,
}

/// The text that the last of the first `n` settings with the key gives, or
/// the empty text where none has the key.
pub open spec fn setting(items: Seq<MetaItem>, key: Seq<char>, n: nat) -> Seq<char>
    decreases n,
{
    if n == 0 || n > items.len() {
        Seq::empty()
    } else if items[n - 1].key@ == key {
        items[n - 1].value@
    } else {
        setting(items, key, (n - 1) as nat)
    }
}

/// Whether one of the first `n` fields has the name.
pub open spec fn has_field(fields: Seq<String>, name: Seq<char>, n: nat) -> bool
    decreases n,
{
    if n == 0 || n > fields.len() {
        false
    } else {
        fields[n - 1]@ == name || has_field(fields, name, (n - 1) as nat)
    }
}

/// The first reason to refuse a declaration, if there is one: a missing
/// path, address or name, in this order; then a shape that is no record; a
/// record of fewer than three named fields; a record without one of the
/// three fields.
pub open spec fn meta_fault(items: Seq<MetaItem>, shape: Shape) -> Option<MetaError> {
    if setting(items, "path"@, items.len()).len() == 0 {
        Some(MetaError::PathMissing)
    } else if setting(items, "addr"@, items.len()).len() == 0 {
        Some(MetaError::AddressMissing)
    } else if setting(items, "name"@, items.len()).len() == 0 {
        Some(MetaError::NameMissing)
    } else {
        match shape {
            Shape::Other => Some(MetaError::NotAStruct),
            Shape::Struct { named, fields } => if named && fields@.len() < 3 {
                Some(MetaError::TooFewFields)
            } else if !(has_field(fields@, "client"@, fields@.len()) && has_field(
                fields@,
                "address"@,
                fields@.len(),
            ) && has_field(fields@, "contract"@, fields@.len())) {
                Some(MetaError::FieldsMissing)
            } else {
                None
            },
        }
    }
}

/// The text that the last setting with the key gives.
fn find_setting(items: &Vec<MetaItem>, key: &str) -> (text: String)
    ensures
        text@ == setting(items@, key@, items@.len()),
{
    let mut i: usize = items.len();
    while i > 0
        invariant
            i <= items@.len(),
            setting(items@, key@, items@.len()) == setting(items@, key@, i as nat),
        decreases i,
    {
        if same_text(items[i - 1].key.as_str(), key) {
            return items[i - 1].value.clone();
        }
        i -= 1;
    }
    String::new()
}

/// Whether one of the fields has the name.
fn find_field(fields: &Vec<String>, name: &str) -> (found: bool)
    ensures
        found == has_field(fields@, name@, fields@.len()),
{
    let mut i: usize = fields.len();
    while i > 0
        invariant
            i <= fields@.len(),
            has_field(fields@, name@, fields@.len()) == has_field(fields@, name@, i as nat),
        decreases i,
    {
        if same_text(fields[i - 1].as_str(), name) {
            return true;
        }
        i -= 1;
    }
    false
}

/// Read the settings of a contract declaration and check what it is
/// attached to. Of several settings with one key the last counts.
pub fn contract_meta(items: &Vec<MetaItem>, shape: &Shape) -> (r: Result<ContractMeta, MetaError>)
    ensures
        match r {
            Ok(meta) => {
                &&& meta_fault(items@, *shape) is None
                &&& meta.name@ == setting(items@, "name"@, items@.len())
                &&& meta.addr@ == setting(items@, "addr"@, items@.len())
                &&& meta.path@ == setting(items@, "path"@, items@.len())
            },
            Err(e) => meta_fault(items@, *shape) == Some(e),
        },
{
    let name = find_setting(items, "name");
    let addr = find_setting(items, "addr");
    let path = find_setting(items, "path");
    if path.as_str().unicode_len() == 0 {
        return Err(MetaError::PathMissing);
    }
    if addr.as_str().unicode_len() == 0 {
        return Err(MetaError::AddressMissing);
    }
    if name.as_str().unicode_len() == 0 {
        return Err(MetaError::NameMissing);
    }
    match shape {
        Shape::Other => Err(MetaError::NotAStruct),
        Shape::Struct { named, fields } => {
            if *named && fields.len() < 3 {
                return Err(MetaError::TooFewFields);
            }
            if !(find_field(fields, "client") && find_field(fields, "address") && find_field(
                fields,
                "contract",
            )) {
                return Err(MetaError::FieldsMissing);
            }
            Ok(ContractMeta { name, addr, path })
        },
    }
}

} // verus!
