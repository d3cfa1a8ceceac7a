use cita_tool::abi::Kind;
use cita_tool::address::Address;
use cita_tool::contract::{
    contract_meta, function_named, get_contract_meta_items, send_option, Attribute, BoundContract, CallArgs,
    ContractMeta, Function, MetaError, MetaItem, Shape,
};
use cita_tool::error::ToolError;

const OWN: &str = "0x00000000000000000000000000000000000000aa";

fn transfer() -> Function {
    Function::new("transfer(address,uint256)".to_string(), vec![Kind::Address, Kind::Uint(256)])
}

fn sum() -> Function {
    Function::new("sum(uint256[])".to_string(), vec![Kind::Array(Box::new(Kind::Uint(256)))])
}

fn interface() -> Vec<Function> {
    vec![
        transfer(),
        sum(),
        Function::new("transfer(uint256)".to_string(), vec![Kind::Uint(256)]),
        Function::new("stop()".to_string(), vec![]),
    ]
}

fn bound() -> BoundContract {
    BoundContract::new(OWN, interface()).unwrap()
}

fn texts(items: &[&str]) -> Vec<String> {
    items.iter().map(|s| s.to_string()).collect()
}

fn item(key: &str, value: &str) -> MetaItem {
    MetaItem { key: key.to_string(), value: value.to_string() }
}

fn record(names: &[&str]) -> Shape {
    Shape::Struct { named: true, fields: names.iter().map(|s| s.to_string()).collect() }
}

fn settings() -> Vec<MetaItem> {
    vec![item("name", "GroupExt"), item("addr", OWN), item("path", "abi/group.abi")]
}

#[test]
fn contract_is_bound_to_a_well_formed_address() {
    let contract = bound();
    assert_eq!(contract.address(), Address::from_text(OWN).unwrap());
    assert_eq!(contract.functions(), &interface());
    assert_eq!(BoundContract::new(&OWN[2..], interface()).unwrap(), contract);
    assert_eq!(BoundContract::new("0x", interface()), Err(ToolError::MalformedAddress));
    assert_eq!(BoundContract::new("0x12", vec![]), Err(ToolError::MalformedAddress));
    assert_eq!(BoundContract::new("contract", vec![]), Err(ToolError::MalformedAddress));
}

#[test]
fn functions_are_found_by_name() {
    let functions = interface();
    assert_eq!(transfer().name(), "transfer");
    assert_eq!(transfer().signature(), "transfer(address,uint256)");
    assert_eq!(transfer().kinds(), &vec![Kind::Address, Kind::Uint(256)]);
    assert_eq!(Function::new("plain".to_string(), vec![]).name(), "plain");
    assert_eq!(Function::new("(a)".to_string(), vec![]).name(), "");
    assert_eq!(function_named(&functions, "transfer"), Some(&functions[0]));
    assert_eq!(function_named(&functions, "sum"), Some(&functions[1]));
    assert_eq!(function_named(&functions, "stop"), Some(&functions[3]));
    assert_eq!(function_named(&functions, "Transfer"), None);
    assert_eq!(function_named(&functions, "transfer(uint256)"), None);
    assert_eq!(function_named(&functions, ""), None);
    assert_eq!(function_named(&vec![], "transfer"), None);
}

#[test]
fn prepared_call_names_code_and_target() {
    let contract = bound();
    let values = texts(&[OWN, "1"]);
    let args = contract.prepare_call_args("transfer", &values, None).unwrap();
    assert_eq!(
        args.code,
        "0xa9059cbb\
         00000000000000000000000000000000000000000000000000000000000000aa\
         0000000000000000000000000000000000000000000000000000000000000001"
    );
    assert_eq!(args.code.len(), 2 + 2 * 68);
    assert_eq!(args.to_address, OWN);
    let other = Address { bytes: [0xbb; 20] };
    let args = contract.prepare_call_args("transfer", &values, Some(other)).unwrap();
    assert_eq!(args.to_address, "0xbbbbbbbbbbbbbbbbbbbbbbbbbbbbbbbbbbbbbbbb");
    assert_eq!(
        contract.prepare_call_args("transfer", &texts(&[OWN]), None),
        Err(ToolError::ArityError { expected: 2, found: 1 })
    );
    assert_eq!(
        contract.prepare_call_args("transfer", &texts(&[]), None),
        Err(ToolError::ArityError { expected: 2, found: 0 })
    );
    assert_eq!(
        contract.prepare_call_args("transfer", &texts(&["x", "1"]), None),
        Err(ToolError::TypeMismatch { index: 0, declared: Kind::Address })
    );
    assert_eq!(
        contract.prepare_call_args("burn", &values, None),
        Err(ToolError::UnknownFunction)
    );
    assert_eq!(contract.prepare_call_args("stop", &texts(&[]), None).unwrap().code.len(), 10);
}

#[test]
fn prepared_call_with_an_empty_array() {
    let args = bound().prepare_call_args("sum", &texts(&["[]"]), None).unwrap();
    assert_eq!(args.code.len(), 138);
    let bytes = cita_tool::text::from_hex(&args.code).unwrap();
    assert_eq!(bytes.len(), 4 + 64);
    let mut offset = [0u8; 32];
    offset[31] = 0x20;
    assert_eq!(&bytes[4..36], &offset[..]);
    assert_eq!(&bytes[36..68], &[0u8; 32][..]);
}

#[test]
fn prepared_call_with_an_array_of_two() {
    let args = bound().prepare_call_args("sum", &texts(&["[1,2]"]), None).unwrap();
    assert_eq!(args.code.len(), 266);
    let bytes = cita_tool::text::from_hex(&args.code).unwrap();
    assert_eq!(bytes.len(), 4 + 128);
    let word = |n: u8| {
        let mut w = [0u8; 32];
        w[31] = n;
        w
    };
    assert_eq!(&bytes[4..36], &word(32)[..]);
    assert_eq!(&bytes[36..68], &word(2)[..]);
    assert_eq!(&bytes[68..100], &word(1)[..]);
    assert_eq!(&bytes[100..132], &word(2)[..]);
}

#[test]
fn prepared_call_decodes_to_its_arguments() {
    let contract = bound();
    let args = contract.prepare_call_args("sum", &texts(&["[3,1,2]"]), None).unwrap();
    let bytes = cita_tool::text::from_hex(&args.code).unwrap();
    let kinds = vec![Kind::Array(Box::new(Kind::Uint(256)))];
    let expected = cita_tool::abi_text::parse_argument(&kinds[0], "[3,1,2]").unwrap();
    assert_eq!(
        cita_tool::abi_call::decode_params(vec![Kind::Array(Box::new(Kind::Uint(256)))], &bytes[4..]),
        Ok(vec![expected])
    );
    let args = contract.prepare_call_args("transfer", &texts(&[OWN, "77"]), None).unwrap();
    let bytes = cita_tool::text::from_hex(&args.code).unwrap();
    let back = cita_tool::abi_call::decode_params(vec![Kind::Address, Kind::Uint(256)], &bytes[4..])
        .unwrap();
    assert_eq!(back[0], cita_tool::abi_text::parse_argument(&Kind::Address, OWN).unwrap());
    assert_eq!(back[1], cita_tool::abi_text::parse_argument(&Kind::Uint(256), "77").unwrap());
}

#[test]
fn prepared_call_is_sent_with_its_code_target_and_quota() {
    let args = CallArgs { code: "0xabcd".to_string(), to_address: OWN.to_string() };
    let option = send_option(&args, Some(9));
    assert_eq!(option.code(), "0xabcd");
    assert_eq!(option.address(), OWN);
    assert_eq!(option.quota(), Some(9));
    assert_eq!(option.current_height(), None);
    assert_eq!(option.value(), None);
    assert_eq!(send_option(&args, None).quota(), None);
}

#[test]
fn declaration_with_all_settings_is_accepted() {
    let shape = record(&["client", "address", "contract"]);
    assert_eq!(
        contract_meta(&settings(), &shape),
        Ok(ContractMeta {
            name: "GroupExt".to_string(),
            addr: OWN.to_string(),
            path: "abi/group.abi".to_string(),
        })
    );
    let more = record(&["extra", "contract", "client", "address"]);
    assert!(contract_meta(&settings(), &more).is_ok());
    let unnamed = Shape::Struct {
        named: false,
        fields: vec!["client".to_string(), "address".to_string(), "contract".to_string()],
    };
    assert!(contract_meta(&settings(), &unnamed).is_ok());
}

#[test]
fn the_last_setting_of_a_key_counts() {
    let mut items = settings();
    items.push(item("addr", "0x01"));
    items.push(item("other", "ignored"));
    let shape = record(&["client", "address", "contract"]);
    assert_eq!(contract_meta(&items, &shape).map(|m| m.addr), Ok("0x01".to_string()));
    items.push(item("addr", ""));
    assert_eq!(contract_meta(&items, &shape), Err(MetaError::AddressMissing));
}

#[test]
fn declarations_are_refused_for_the_first_fault() {
    let shape = record(&["client", "address", "contract"]);
    assert_eq!(contract_meta(&vec![], &shape), Err(MetaError::PathMissing));
    assert_eq!(contract_meta(&vec![], &Shape::Other), Err(MetaError::PathMissing));
    assert_eq!(
        contract_meta(&vec![item("path", "p")], &shape),
        Err(MetaError::AddressMissing)
    );
    assert_eq!(
        contract_meta(&vec![item("path", "p"), item("addr", "a")], &shape),
        Err(MetaError::NameMissing)
    );
    assert_eq!(
        contract_meta(&vec![item("name", "n"), item("addr", "a")], &shape),
        Err(MetaError::PathMissing)
    );
    assert_eq!(contract_meta(&settings(), &Shape::Other), Err(MetaError::NotAStruct));
    assert_eq!(
        contract_meta(&settings(), &record(&["client", "address"])),
        Err(MetaError::TooFewFields)
    );
    assert_eq!(contract_meta(&settings(), &record(&[])), Err(MetaError::TooFewFields));
    assert_eq!(
        contract_meta(&settings(), &record(&["client", "address", "abi"])),
        Err(MetaError::FieldsMissing)
    );
    assert_eq!(
        contract_meta(&settings(), &record(&["client", "client", "contract", "x"])),
        Err(MetaError::FieldsMissing)
    );
    let unnamed = Shape::Struct { named: false, fields: vec![String::new(), String::new()] };
    assert_eq!(contract_meta(&settings(), &unnamed), Err(MetaError::FieldsMissing));
}

#[test]
fn only_contract_annotations_give_settings() {
    let contract = Attribute { path: vec!["contract".to_string()], items: Some(settings()) };
    assert_eq!(get_contract_meta_items(&contract), Some(&settings()));
    let empty = Attribute { path: vec!["contract".to_string()], items: Some(vec![]) };
    assert_eq!(get_contract_meta_items(&empty), Some(&vec![]));
    let word = Attribute { path: vec!["contract".to_string()], items: None };
    assert_eq!(get_contract_meta_items(&word), None);
    let other = Attribute { path: vec!["derive".to_string()], items: Some(settings()) };
    assert_eq!(get_contract_meta_items(&other), None);
    let long = Attribute {
        path: vec!["tool".to_string(), "contract".to_string()],
        items: Some(settings()),
    };
    assert_eq!(get_contract_meta_items(&long), None);
    let none = Attribute { path: vec![], items: Some(settings()) };
    assert_eq!(get_contract_meta_items(&none), None);
}
