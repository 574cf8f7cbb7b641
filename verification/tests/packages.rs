//! Packages and their side files.

use std::collections::hash_map::DefaultHasher;
use std::hash::{Hash, Hasher};
use vredrs_codegen::cstar::hash::stable_hash;
use vredrs_codegen::cstar::packages::{
    build_package_layout, classify_package, emit_layout_map, emit_package_header,
    emit_package_index, emit_patch_bytes, estimate_package_size, extract_function_ir,
    extract_quoted, parse_repo_config, parse_source_imports,
};
use vredrs_codegen::cstar::pir::{PackageEntry, PatchPlan};

fn default_hash(s: &str) -> u64 {
    let mut h = DefaultHasher::new();
    s.hash(&mut h);
    h.finish()
}

fn entry(name: &str, offset: u64, size: u64, checksum: u64) -> PackageEntry {
    PackageEntry {
        name: name.to_string(),
        partition: "sram".to_string(),
        size,
        offset,
        checksum,
    }
}

#[test]
fn hashes_are_those_of_the_default_hasher() {
    assert_eq!(stable_hash("net"), default_hash("net"));
    assert_eq!(stable_hash(""), default_hash(""));
    assert_ne!(stable_hash("net"), stable_hash("nets"));
}

#[test]
fn quoted_texts_are_found() {
    let q = extract_quoted("a \"one\" b \"\" c \"open");
    assert_eq!(q.len(), 2);
    assert_eq!((q.get(0), q.get(1)), ("one", ""));
}

#[test]
fn imports_are_read_with_their_partitions() {
    let i = parse_source_imports(
        "import \"net\" to flash_fast,\n  import, \"fs\"\nimport net\nx import \"no\"\n",
    );
    assert_eq!(i.len(), 2);
    assert_eq!((i.name(0), i.forced(0)), ("net", Some("flash_fast".to_string())));
    assert_eq!((i.name(1), i.forced(1)), ("fs", None));
}

#[test]
fn repositories_are_read() {
    let r = parse_repo_config(
        "@repo {\n sources: \"local:a\", \"b\"\n header: \"h.h\"\n map: \"m.map\"\n binary: \"i.bin\"\n}\n",
    );
    assert!(r.enabled);
    assert_eq!(r.sources, vec!["local:a", "b"]);
    assert_eq!(
        (r.output_header.as_str(), r.output_map.as_str(), r.output_binary.as_str()),
        ("h.h", "m.map", "i.bin")
    );
    let d = parse_repo_config("fn, main()\n/end\n");
    assert!(!d.enabled);
    assert_eq!(
        (d.split_by.as_str(), d.output_header.as_str(), d.output_map.as_str(), d.output_binary.as_str()),
        ("size", "flash_layout.h", "layout.map", "pkg_index.bin")
    );
}

#[test]
fn sizes_choose_the_partition() {
    assert_eq!(estimate_package_size(""), 512);
    assert_eq!(estimate_package_size("abc"), 1283);
    assert_eq!(classify_package(4096), "sram");
    assert_eq!(classify_package(4097), "flash_fast");
    assert_eq!(classify_package(32769), "flash_normal");
    assert_eq!(classify_package(524289), "flash_archive");
}

#[test]
fn packages_are_laid_out_by_name_without_overlap() {
    let i = parse_source_imports("import \"zz\"\nimport \"a\"\nimport \"b\" to rom\nimport \"c\" to rom\n");
    let ps = build_package_layout(&i, true);
    let names: Vec<&str> = ps.iter().map(|p| p.name.as_str()).collect();
    assert_eq!(names, vec!["a", "b", "c", "zz"]);
    let places: Vec<(&str, u64, u64)> =
        ps.iter().map(|p| (p.partition.as_str(), p.offset, p.size)).collect();
    assert_eq!(
        places,
        vec![
            ("sram", 0x2000_0000, 769),
            ("rom", 0x0800_0000, 769),
            ("rom", 0x0800_0400, 769),
            ("sram", 0x2000_0400, 1026),
        ]
    );
    assert_eq!(ps[0].checksum, default_hash("a") ^ 769);
}

#[test]
fn a_repository_without_imports_holds_the_program() {
    let none = parse_source_imports("");
    let ps = build_package_layout(&none, true);
    assert_eq!(ps.len(), 1);
    assert_eq!((ps[0].name.as_str(), ps[0].size, ps[0].offset), ("self", 1540, 0x2000_0000));
    assert!(build_package_layout(&none, false).is_empty());
}

#[test]
fn package_files_are_written() {
    let ps = vec![entry("ab", 0x2000_0100, 300, 0xff)];
    assert_eq!(
        emit_package_header(&ps),
        "/* Auto-generated C* package layout. */\nstruct CstarPkgEntry { const char* name; \
         unsigned long long load_addr; unsigned long long size; unsigned long long checksum; };\n\
         static const struct CstarPkgEntry CSTAR_PKG_INDEX[] = {\n  \
         {\"ab\", 0x20000100, 300, 0xff}, /* sram */\n};\n"
    );
    assert_eq!(
        emit_layout_map(&ps),
        "=== C* Package Layout ===\nab 0x20000100 size=300 checksum=0xff partition=sram\n"
    );
    assert_eq!(
        emit_package_index(&ps),
        vec![
            2, 0, 0, 0, b'a', b'b', 0, 1, 0, 0x20, 0, 0, 0, 0, 0x2c, 1, 0, 0, 0, 0, 0, 0, 0xff, 0,
            0, 0, 0, 0, 0, 0,
        ]
    );
}

#[test]
fn patches_hash_the_function_that_they_replace() {
    let ir = "; head\ndefine void @f() {\n  ret void\n}\ndefine void @g() {\n}\n";
    assert_eq!(extract_function_ir(ir, "f"), "define void @f() {\n  ret void\n}");
    assert_eq!(extract_function_ir(ir, "g"), "define void @g() {\n}");
    assert_eq!(extract_function_ir(ir, "h"), "h");
    let plan = PatchPlan {
        function: "f".to_string(),
        base: "b.bin".to_string(),
        output: "o.patch".to_string(),
    };
    let expected = format!(
        "CSTAR-PATCH\nfunction=f\nbase=b.bin\noutput=o.patch\nnew_hash=0x{:x}\n",
        default_hash("define void @f() {\n  ret void\n}")
    );
    assert_eq!(emit_patch_bytes(&plan, ir), expected.into_bytes());
}

#[test]
fn the_definition_of_a_function_is_found_by_its_whole_name() {
    let ir = "define void @ab() {\n}\ndefine void @a() {\nentry:\n}";
    assert_eq!(extract_function_ir(ir, "a"), "define void @a() {\nentry:\n}");
    assert_eq!(extract_function_ir(ir, "ab"), "define void @ab() {\n}");
    assert_eq!(extract_function_ir(ir, "b"), "b");
}
