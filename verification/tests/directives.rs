use transaction_config::config::{AccountData, AccountTable, Config, GlobalConfig};
use transaction_config::entry::{Argument, Entry};
use transaction_config::stage::Stage;
use transaction_config::value::{AccountAddress, TransactionArgument};

fn addr(last: u8) -> AccountAddress {
    let mut bytes = vec![0u8; 15];
    bytes.push(last);
    AccountAddress { bytes }
}

fn global_with(regular: &[(&str, u8)], genesis: &[(&str, u8)]) -> GlobalConfig {
    let mut accounts = AccountTable::new();
    for (name, last) in regular {
        accounts.insert(name.to_string(), AccountData { address: addr(*last) });
    }
    let mut genesis_accounts = AccountTable::new();
    for (name, last) in genesis {
        genesis_accounts.insert(name.to_string(), AccountData { address: addr(*last) });
    }
    GlobalConfig { accounts, genesis_accounts }
}

fn entry(line: &str) -> Entry {
    Entry::from_str(line).unwrap()
}

#[test]
fn literal_u64_round_trip() {
    match Argument::from_str("42") {
        Ok(Argument::SelfContained(TransactionArgument::U64(v))) => assert_eq!(v, 42),
        other => panic!("unexpected: {:?}", other),
    }
}

#[test]
fn literal_bool_round_trip() {
    match Argument::from_str("true") {
        Ok(Argument::SelfContained(TransactionArgument::Bool(b))) => assert!(b),
        other => panic!("unexpected: {:?}", other),
    }
}

#[test]
fn literal_u8_round_trip() {
    match Argument::from_str("13u8") {
        Ok(Argument::SelfContained(TransactionArgument::U8(v))) => assert_eq!(v, 13),
        other => panic!("unexpected: {:?}", other),
    }
}

#[test]
fn literal_u128_round_trip() {
    match Argument::from_str("7u128") {
        Ok(Argument::SelfContained(TransactionArgument::U128(v))) => assert_eq!(v, 7),
        other => panic!("unexpected: {:?}", other),
    }
}

#[test]
fn literal_address_round_trip() {
    match Argument::from_str("0x1") {
        Ok(Argument::SelfContained(TransactionArgument::Address(a))) => {
            let mut expected = vec![0u8; 15];
            expected.push(1);
            assert_eq!(a.bytes, expected);
        }
        other => panic!("unexpected: {:?}", other),
    }
}

#[test]
fn literal_byte_vector_round_trip() {
    match Argument::from_str("x\"0102\"") {
        Ok(Argument::SelfContained(TransactionArgument::U8Vector(v))) => {
            assert_eq!(v, vec![1u8, 2u8]);
        }
        other => panic!("unexpected: {:?}", other),
    }
}

#[test]
fn symbolic_reference() {
    match Argument::from_str("{{alice}}") {
        Ok(Argument::AddressOf(name)) => assert_eq!(name, "alice"),
        other => panic!("unexpected: {:?}", other),
    }
}

#[test]
fn symbolic_reference_empty_name() {
    match Argument::from_str("{{}}") {
        Ok(Argument::AddressOf(name)) => assert_eq!(name, ""),
        other => panic!("unexpected: {:?}", other),
    }
}

#[test]
fn argument_rejects_plain_word() {
    let e = Argument::from_str("foo").unwrap_err();
    assert_eq!(e.msg, "failed to parse 'foo' as argument");
}

#[test]
fn new_transaction_exact() {
    assert!(transaction_config::entry::is_new_transaction("//! new-transaction"));
}

#[test]
fn new_transaction_trims_only() {
    assert!(transaction_config::entry::is_new_transaction("  //!   new-transaction  "));
    assert!(transaction_config::entry::is_new_transaction("//!new-transaction"));
    assert!(!transaction_config::entry::is_new_transaction("//! new - transaction"));
    assert!(!transaction_config::entry::is_new_transaction("// ! new-transaction"));
    assert!(!transaction_config::entry::is_new_transaction("//! new-transactions"));
    assert!(!transaction_config::entry::is_new_transaction("new-transaction"));
}

#[test]
fn sender_is_lowercased() {
    match entry("//! sender: ALICE") {
        Entry::Sender(name) => assert_eq!(name, "alice"),
        other => panic!("unexpected: {:?}", other),
    }
}

#[test]
fn sender_empty_is_an_error() {
    let e = Entry::from_str("//! sender: ").unwrap_err();
    assert_eq!(e.msg, "sender cannot be empty");
}

#[test]
fn entry_needs_the_marker() {
    let e = Entry::from_str("sender: alice").unwrap_err();
    assert_eq!(e.msg, "txn config entry must start with //!");
}

#[test]
fn keyword_matching_ignores_internal_spaces() {
    match entry("//! max - gas : 123") {
        Entry::MaxGas(v) => assert_eq!(v, 123),
        other => panic!("unexpected: {:?}", other),
    }
}

#[test]
fn args_entry_keeps_order() {
    match entry("//! args: {{alice}}, 42") {
        Entry::Arguments(args) => {
            assert_eq!(args.len(), 2);
            assert!(matches!(&args[0], Argument::AddressOf(n) if n == "alice"));
            assert!(matches!(
                &args[1],
                Argument::SelfContained(TransactionArgument::U64(42))
            ));
        }
        other => panic!("unexpected: {:?}", other),
    }
}

#[test]
fn args_entry_drops_empty_pieces() {
    match entry("//! args: , 1,, 2 ,") {
        Entry::Arguments(args) => assert_eq!(args.len(), 2),
        other => panic!("unexpected: {:?}", other),
    }
}

#[test]
fn no_run_entry_parses_stages() {
    match entry("//! no-run: verifier, runtime") {
        Entry::DisableStages(stages) => {
            assert_eq!(stages, vec![Stage::Verifier, Stage::Runtime]);
        }
        other => panic!("unexpected: {:?}", other),
    }
}

#[test]
fn no_run_rejects_unknown_stage() {
    let e = Entry::from_str("//! no-run: bogus").unwrap_err();
    assert_eq!(e.msg, "unrecognized stage 'bogus'");
}

#[test]
fn max_gas_rejects_non_number() {
    let e = Entry::from_str("//! max-gas: 12x").unwrap_err();
    assert_eq!(e.msg, "cannot parse '12x' as u64");
}

#[test]
fn max_gas_accepts_the_largest_value() {
    match entry("//! max-gas: 18446744073709551615") {
        Entry::MaxGas(v) => assert_eq!(v, u64::MAX),
        other => panic!("unexpected: {:?}", other),
    }
}

#[test]
fn max_gas_rejects_overflow() {
    let e = Entry::from_str("//! max-gas: 18446744073709551616").unwrap_err();
    assert_eq!(e.msg, "cannot parse '18446744073709551616' as u64");
}

#[test]
fn max_gas_accepts_a_plus_sign() {
    match entry("//! max-gas: +5") {
        Entry::MaxGas(v) => assert_eq!(v, 5),
        other => panic!("unexpected: {:?}", other),
    }
}

#[test]
fn max_gas_rejects_empty_remainder() {
    let e = Entry::from_str("//! max-gas:").unwrap_err();
    assert_eq!(e.msg, "cannot parse '' as u64");
}

#[test]
fn sequence_number_parses() {
    match entry("//! sequence-number: 7") {
        Entry::SequenceNumber(v) => assert_eq!(v, 7),
        other => panic!("unexpected: {:?}", other),
    }
}

#[test]
fn unknown_keyword_is_an_error() {
    let e = Entry::from_str("//! whatever: 3").unwrap_err();
    assert_eq!(e.msg, "failed to parse 'whatever:3' as transaction config entry");
}

#[test]
fn try_parse_passes_over_plain_lines() {
    assert!(Entry::try_parse("move code here").unwrap().is_none());
    assert!(Entry::try_parse("  //! sender: x").unwrap().is_none());
    match Entry::try_parse("//! max-gas: 1").unwrap() {
        Some(Entry::MaxGas(1)) => {}
        other => panic!("unexpected: {:?}", other),
    }
    assert!(Entry::try_parse("//! nonsense").is_err());
}

#[test]
fn build_resolves_sender_case_insensitively() {
    let g = global_with(&[("alice", 0xAA)], &[]);
    let entries = vec![entry("//! sender: ALICE")];
    let config = Config::build(&g, &entries).unwrap();
    assert_eq!(config.sender, "alice");
}

#[test]
fn build_accepts_genesis_sender() {
    let g = global_with(&[], &[("assoc", 0x01)]);
    let entries = vec![entry("//! sender: assoc")];
    let config = Config::build(&g, &entries).unwrap();
    assert_eq!(config.sender, "assoc");
}

#[test]
fn build_rejects_unknown_sender() {
    let g = global_with(&[("alice", 0xAA)], &[]);
    let entries = vec![entry("//! sender: bob")];
    let e = Config::build(&g, &entries).unwrap_err();
    assert_eq!(e.msg, "account 'bob' does not exist");
}

#[test]
fn build_rejects_second_sender_even_if_equal() {
    let g = global_with(&[("alice", 0xAA)], &[]);
    let entries = vec![entry("//! sender: alice"), entry("//! sender: alice")];
    let e = Config::build(&g, &entries).unwrap_err();
    assert_eq!(e.msg, "sender already set");
}

#[test]
fn build_resolves_args_in_order() {
    let g = global_with(&[("alice", 0xAA)], &[]);
    let entries = vec![entry("//! args: {{alice}}, 42")];
    let config = Config::build(&g, &entries).unwrap();
    assert_eq!(config.args.len(), 2);
    match &config.args[0] {
        TransactionArgument::Address(a) => assert_eq!(a.bytes, addr(0xAA).bytes),
        other => panic!("unexpected: {:?}", other),
    }
    assert!(matches!(&config.args[1], TransactionArgument::U64(42)));
}

#[test]
fn build_does_not_resolve_args_from_genesis_accounts() {
    let g = global_with(&[], &[("alice", 0xAA)]);
    let entries = vec![entry("//! args: {{alice}}")];
    let e = Config::build(&g, &entries).unwrap_err();
    assert_eq!(e.msg, "account 'alice' does not exist");
}

#[test]
fn build_rejects_second_args_entry() {
    let g = global_with(&[], &[]);
    let entries = vec![entry("//! args: 1"), entry("//! args: 2")];
    let e = Config::build(&g, &entries).unwrap_err();
    assert_eq!(e.msg, "transaction arguments already set");
}

#[test]
fn build_defaults_sender() {
    let g = global_with(&[("alice", 0xAA)], &[]);
    let entries = vec![entry("//! max-gas: 5")];
    let config = Config::build(&g, &entries).unwrap();
    assert_eq!(config.sender, "default");
}

#[test]
fn build_defaults_args_to_empty() {
    let g = global_with(&[], &[]);
    let entries: Vec<Entry> = vec![];
    let config = Config::build(&g, &entries).unwrap();
    assert!(config.args.is_empty());
    assert!(config.max_gas.is_none());
    assert!(config.sequence_number.is_none());
    assert!(config.disabled_stages.is_empty());
}

#[test]
fn duplicate_stage_in_one_directive_fails() {
    let g = global_with(&[], &[]);
    let entries = vec![entry("//! no-run: runtime, runtime")];
    let e = Config::build(&g, &entries).unwrap_err();
    assert_eq!(e.msg, "duplicate stage 'runtime' in black list");
}

#[test]
fn duplicate_stage_across_directives_fails() {
    let g = global_with(&[], &[]);
    let entries = vec![entry("//! no-run: runtime"), entry("//! no-run: runtime")];
    let e = Config::build(&g, &entries).unwrap_err();
    assert_eq!(e.msg, "duplicate stage 'runtime' in black list");
}

#[test]
fn max_gas_twice_fails_even_with_equal_values() {
    let g = global_with(&[], &[]);
    let entries = vec![entry("//! max-gas: 100"), entry("//! max-gas: 100")];
    let e = Config::build(&g, &entries).unwrap_err();
    assert_eq!(e.msg, "max gas amount already set");
    let entries = vec![entry("//! max-gas: 100"), entry("//! max-gas: 200")];
    let e = Config::build(&g, &entries).unwrap_err();
    assert_eq!(e.msg, "max gas amount already set");
}

#[test]
fn sequence_number_twice_fails() {
    let g = global_with(&[], &[]);
    let entries = vec![
        entry("//! sequence-number: 1"),
        entry("//! sequence-number: 2"),
    ];
    let e = Config::build(&g, &entries).unwrap_err();
    assert_eq!(e.msg, "sequence number already set");
}

#[test]
fn build_records_options() {
    let g = global_with(&[("alice", 0x10)], &[]);
    let entries = vec![
        entry("//! sender: alice"),
        entry("//! max-gas: 77"),
        entry("//! sequence-number: 3"),
        entry("//! no-run: verifier, serializer"),
    ];
    let config = Config::build(&g, &entries).unwrap();
    assert_eq!(config.sender, "alice");
    assert_eq!(config.max_gas, Some(77));
    assert_eq!(config.sequence_number, Some(3));
    assert!(config.is_stage_disabled(Stage::Verifier));
    assert!(config.is_stage_disabled(Stage::Serializer));
    assert!(!config.is_stage_disabled(Stage::Runtime));
    assert!(!config.is_stage_disabled(Stage::Compiler));
}

#[test]
fn later_registration_wins_in_the_registry() {
    let mut accounts = AccountTable::new();
    accounts.insert("alice".to_string(), AccountData { address: addr(1) });
    accounts.insert("alice".to_string(), AccountData { address: addr(2) });
    let g = GlobalConfig { accounts, genesis_accounts: AccountTable::new() };
    let entries = vec![entry("//! args: {{alice}}")];
    let config = Config::build(&g, &entries).unwrap();
    match &config.args[0] {
        TransactionArgument::Address(a) => assert_eq!(a.bytes, addr(2).bytes),
        other => panic!("unexpected: {:?}", other),
    }
}
