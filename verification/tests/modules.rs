//! The module map and the symbolicator over synthetic tables.

use remoteprocess::Error;
use remoteprocess::Module;
use remoteprocess::ModuleMap;
use remoteprocess::SymbolTable;
use remoteprocess::Symbolicator;

fn two_modules() -> ModuleMap {
    let entries = vec![
        Module { name: String::from("/bin/app"), base: 0x1000, end: 0x2000 },
        Module { name: String::from("/lib/libx.so"), base: 0x4000, end: 0x6000 },
    ];
    ModuleMap::from_entries(entries).unwrap()
}

#[test]
fn from_entries_rejects_overlap_and_backwards_ranges() {
    let overlapping = vec![
        Module { name: String::from("a"), base: 0x1000, end: 0x3000 },
        Module { name: String::from("b"), base: 0x2000, end: 0x4000 },
    ];
    assert!(ModuleMap::from_entries(overlapping).is_err());
    let backwards = vec![Module { name: String::from("a"), base: 0x2000, end: 0x1000 }];
    assert!(ModuleMap::from_entries(backwards).is_err());
    let unsorted = vec![
        Module { name: String::from("a"), base: 0x4000, end: 0x5000 },
        Module { name: String::from("b"), base: 0x1000, end: 0x2000 },
    ];
    assert!(ModuleMap::from_entries(unsorted).is_err());
}

#[test]
fn find_lands_in_the_owning_module_or_nowhere() {
    let map = two_modules();
    assert_eq!(map.find(0x1000), Some(0));
    assert_eq!(map.find(0x1fff), Some(0));
    assert_eq!(map.find(0x4500), Some(1));
    assert_eq!(map.find(0x2000), None);
    assert_eq!(map.find(0x3000), None);
    assert_eq!(map.find(0x6000), None);
}

#[test]
fn symbolicate_outside_every_module_fails_with_that_address() {
    let s = Symbolicator::new(two_modules());
    match s.symbolicate(0x1000_0000, true) {
        Err(Error::NoBinaryForAddress(addr)) => assert_eq!(addr, 0x1000_0000),
        _ => panic!("expected the address-resolution miss"),
    }
    let msg = s.symbolicate(0x1000, true).map(|_| ()).err();
    assert!(msg.is_none());
}

#[test]
fn symbolicate_with_full_tables_yields_function_file_and_line() {
    let mut s = Symbolicator::new(two_modules());
    s.set_table(
        0,
        SymbolTable {
            symbols: vec![
                (String::from("main"), 0x100, 0x80),
                (String::from("helper"), 0x200, 0x40),
            ],
            lines: vec![
                (0x100, String::from("main.c"), 10),
                (0x120, String::from("main.c"), 17),
                (0x200, String::from("util.c"), 3),
            ],
        },
    );
    let frame = s.symbolicate(0x1128, true).unwrap();
    assert_eq!(frame.addr, 0x1128);
    assert_eq!(frame.module, "/bin/app");
    assert_eq!(frame.function.as_deref(), Some("main"));
    assert_eq!(frame.filename.as_deref(), Some("main.c"));
    assert_eq!(frame.line, Some(17));
    assert_eq!(frame.render(), "0x0000000000001128 main (main.c:17)");
}

#[test]
fn symbolicate_without_a_table_leaves_the_optional_fields_empty() {
    let s = Symbolicator::new(two_modules());
    let frame = s.symbolicate(0x4500, false).unwrap();
    assert_eq!(frame.module, "/lib/libx.so");
    assert!(frame.function.is_none());
    assert!(frame.filename.is_none());
    assert!(frame.line.is_none());
    assert_eq!(frame.render(), "0x0000000000004500 ? (/lib/libx.so)");
}

#[test]
fn a_mapping_line_parses_into_base_end_and_path() {
    let line = b"55d4e0e00000-55d4e0e25000 r-xp 00000000 08:02 131073    /usr/bin/foo".to_vec();
    let m = remoteprocess::parse_maps_line(&line).unwrap();
    assert_eq!(m.base, 0x55d4e0e00000);
    assert_eq!(m.end, 0x55d4e0e25000);
    assert_eq!(m.name, "/usr/bin/foo");
}

#[test]
fn non_executable_anonymous_and_garbage_lines_parse_to_nothing() {
    let writable = b"55d4e0e00000-55d4e0e25000 rw-p 00000000 08:02 131073 /usr/bin/foo".to_vec();
    assert!(remoteprocess::parse_maps_line(&writable).is_none());
    let anonymous = b"7ffc1000-7ffc2000 r-xp 00000000 00:00 0".to_vec();
    assert!(remoteprocess::parse_maps_line(&anonymous).is_none());
    let garbage = b"not a mapping at all".to_vec();
    assert!(remoteprocess::parse_maps_line(&garbage).is_none());
    assert!(remoteprocess::parse_maps_line(&Vec::new()).is_none());
}

#[test]
fn a_mapping_table_keeps_only_executable_file_backed_lines() {
    let text = b"1000-2000 r-xp 00000000 08:02 1 /bin/a\n\
                 3000-4000 rw-p 00000000 08:02 1 /bin/a\n\
                 5000-6000 r-xp 00000000 08:02 2 /lib/b.so\n"
        .to_vec();
    let modules = remoteprocess::parse_maps_text(&text);
    assert_eq!(modules.len(), 2);
    assert_eq!(modules[0].name, "/bin/a");
    assert_eq!(modules[0].base, 0x1000);
    assert_eq!(modules[1].name, "/lib/b.so");
    assert_eq!(modules[1].end, 0x6000);
    let map = ModuleMap::from_entries(modules).unwrap();
    assert_eq!(map.find(0x1500), Some(0));
}

#[test]
fn hex_parsing_and_byte_search_behave_exactly() {
    let s = b"deadbeef-cafe".to_vec();
    assert_eq!(remoteprocess::parse_hex_range(&s, 0, 8), Some(0xdeadbeef));
    assert_eq!(remoteprocess::parse_hex_range(&s, 9, 13), Some(0xcafe));
    assert_eq!(remoteprocess::parse_hex_range(&s, 0, 9), None);
    assert_eq!(remoteprocess::parse_hex_range(&s, 3, 3), None);
    assert_eq!(remoteprocess::find_byte(&s, 0, b'-'), Some(8));
    assert_eq!(remoteprocess::find_byte(&s, 9, b'-'), None);
}

fn read_whole_file(path: &str) -> Vec<u8> {
    let fd = nix::fcntl::open(path, nix::fcntl::OFlag::O_RDONLY, nix::sys::stat::Mode::empty())
        .unwrap();
    let mut out: Vec<u8> = Vec::new();
    let mut buf = [0u8; 65536];
    loop {
        let n = nix::unistd::read(&fd, &mut buf).unwrap();
        if n == 0 {
            break;
        }
        out.extend_from_slice(&buf[..n]);
    }
    out
}

#[test]
fn load_module_attaches_the_binarys_own_symbols_and_rejects_garbage() {
    let exe = read_whole_file("/proc/self/exe");
    let entries = vec![Module { name: String::from("self"), base: 0, end: u64::MAX }];
    let map = ModuleMap::from_entries(entries).unwrap();
    let mut sym = Symbolicator::new(map);
    sym.load_module(0, &exe).unwrap();
    assert!(!sym.tables[0].as_ref().unwrap().symbols.is_empty());
    let garbage = vec![1u8, 2, 3];
    assert!(matches!(sym.load_module(0, &garbage), Err(Error::GoblinError(_))));
}

#[test]
fn symbol_lookup_prefers_the_nearest_covering_symbol() {
    let table = SymbolTable {
        symbols: vec![
            (String::from("outer"), 0x0, 0x1000),
            (String::from("inner"), 0x500, 0x100),
        ],
        lines: vec![],
    };
    let i = table.find_symbol(0x550).unwrap();
    assert_eq!(table.symbols[i].0, "inner");
    let o = table.find_symbol(0x400).unwrap();
    assert_eq!(table.symbols[o].0, "outer");
    assert!(table.find_symbol(0x1000).is_none());
    assert!(table.find_line(0x10).is_none());
}
