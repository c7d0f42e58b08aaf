use load_dll::block_finder::Block;
use load_dll::compiler::{block_symbols, compiler_args, symbol_name, BlockMap};
use load_dll::driver::{next_action, termination_report, text_size, Action};

#[test]
fn symbol_names_are_zero_padded_hex() {
    assert_eq!(symbol_name(&Block { start: 0x1a, end: 0xbeef0 }), "block_0000001a_000beef0");
    let symbols = block_symbols(&vec![Block { start: 0, end: 4 }, Block { start: 4, end: 0x10 }]);
    assert_eq!(symbols, vec![(0, "block_00000000_00000004".to_string()), (4, "block_00000004_00000010".to_string())]);
}

#[test]
fn compiler_arguments_build_an_optimised_stripped_library() {
    let args = compiler_args("demo.rs", "/lib/libarviss.rlib");
    assert_eq!(
        args,
        vec![
            "--edition=2021",
            "--crate-type",
            "cdylib",
            "--extern",
            "arviss=/lib/libarviss.rlib",
            "-C",
            "opt-level=2",
            "-C",
            "strip=symbols",
            "demo.rs"
        ]
    );
}

#[test]
fn block_map_finds_inserted_entries() {
    let mut map: BlockMap<&str> = BlockMap::new();
    assert!(map.get(0).is_none());
    map.insert(0, "first");
    map.insert(8, "second");
    map.insert(0, "again");
    assert_eq!(map.get(0), Some(&"again"));
    assert_eq!(map.get(8), Some(&"second"));
    assert!(map.get(4).is_none());
}

#[test]
fn driver_decisions() {
    assert_eq!(next_action(true, true), Action::Stop);
    assert_eq!(next_action(true, false), Action::Stop);
    assert_eq!(next_action(false, true), Action::RunBlock);
    assert_eq!(next_action(false, false), Action::Interpret);
}

#[test]
fn termination_reports() {
    assert_eq!(termination_report(true, "Breakpoint", 8), "Simulation terminated successfully");
    assert_eq!(termination_report(false, "IllegalInstruction(0)", 0x44), "IllegalInstruction(0) at 0x00000044");
}

#[test]
fn text_size_skips_sentinel() {
    assert_eq!(text_size(20), Some(16));
    assert_eq!(text_size(4), Some(0));
    assert_eq!(text_size(3), None);
}
