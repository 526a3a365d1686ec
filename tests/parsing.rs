use mapping_viewer::document::MappingIndex;
use mapping_viewer::records::{MappingError, ProguardClass, ProguardField, ProguardMethod};

fn block(lines: &[&str]) -> Vec<String> {
    lines.iter().map(|l| l.to_string()).collect()
}

#[test]
fn end_to_end_single_class() {
    let text = "a.b.Foo -> x.y.z:\n    int bar -> a\n    void baz() -> b\n";
    let index = MappingIndex::parse(text).unwrap();
    let classes = index.all_classes();
    assert_eq!(classes.len(), 1);
    let c = &classes[0];
    assert_eq!(c.deobfed, "a.b.Foo");
    assert_eq!(c.obfed, "x.y.z");
    assert_eq!(c.fields.len(), 1);
    assert_eq!(c.fields[0].deobfed, "int bar");
    assert_eq!(c.fields[0].obfed, "a");
    assert_eq!(c.methods.len(), 1);
    assert_eq!(c.methods[0].deobfed, "void baz()");
    assert_eq!(c.methods[0].obfed, "b");
}

#[test]
fn class_count_equals_header_count() {
    let text = "# comment\nA -> a:\n    int x -> a\nB -> b:\n\nC -> c:\n    void f() -> a\n";
    let index = MappingIndex::parse(text).unwrap();
    let names: Vec<&str> = index.all_classes().iter().map(|c| c.deobfed.as_str()).collect();
    assert_eq!(names, vec!["A", "B", "C"]);
}

#[test]
fn members_keep_document_order() {
    let data = block(&[
        "p.Q -> a:",
        "    int one -> a",
        "    void first() -> b",
        "    int two -> c",
        "    1:2:void second(int) -> d",
        "    int three -> e",
    ]);
    let c = ProguardClass::deserialize(&data).unwrap();
    let fields: Vec<&str> = c.fields.iter().map(|f| f.obfed.as_str()).collect();
    let methods: Vec<&str> = c.methods.iter().map(|m| m.obfed.as_str()).collect();
    assert_eq!(fields, vec!["a", "c", "e"]);
    assert_eq!(methods, vec!["b", "d"]);
    assert_eq!(c.methods[1].deobfed, "void second(int)");
}

#[test]
fn paren_line_is_a_method() {
    let c = ProguardClass::deserialize(&block(&["K -> k:", "    int foo() -> a"])).unwrap();
    assert_eq!(c.fields.len(), 0);
    assert_eq!(c.methods.len(), 1);
    assert_eq!(c.methods[0].deobfed, "int foo()");
    assert_eq!(c.methods[0].obfed, "a");
}

#[test]
fn plain_line_is_a_field() {
    let c = ProguardClass::deserialize(&block(&["K -> k:", "    int bar -> b"])).unwrap();
    assert_eq!(c.methods.len(), 0);
    assert_eq!(c.fields.len(), 1);
    assert_eq!(c.fields[0].deobfed, "int bar");
    assert_eq!(c.fields[0].obfed, "b");
}

#[test]
fn method_line_range_is_dropped() {
    let m = ProguardMethod::deserialize(&"5:9:void baz() -> c".to_string()).unwrap();
    assert_eq!(m.deobfed, "void baz()");
    assert_eq!(m.obfed, "c");
}

#[test]
fn indented_method_line_range_is_dropped() {
    let m = ProguardMethod::deserialize(&"    11:13:int foo() -> a".to_string()).unwrap();
    assert_eq!(m.deobfed, "int foo()");
    assert_eq!(m.obfed, "a");
}

#[test]
fn last_block_is_flushed() {
    let text = "A -> a:\n    int x -> a\nB -> b:\n    int y -> a\n    void g() -> b";
    let index = MappingIndex::parse(text).unwrap();
    let classes = index.all_classes();
    assert_eq!(classes.len(), 2);
    assert_eq!(classes[1].deobfed, "B");
    assert_eq!(classes[1].fields.len(), 1);
    assert_eq!(classes[1].methods.len(), 1);
}

#[test]
fn single_class_without_members() {
    let index = MappingIndex::parse("A -> a:").unwrap();
    assert_eq!(index.all_classes().len(), 1);
    assert_eq!(index.all_classes()[0].obfed, "a");
}

#[test]
fn empty_needle_finds_no_class() {
    let index = MappingIndex::parse("A -> a:\nB -> b:\n").unwrap();
    assert!(index.find_classes_by_substring("").is_empty());
}

#[test]
fn substring_search_is_ordered_and_case_sensitive() {
    let text = "net.Foo -> a:\nnet.Bar -> b:\nnet.FooBar -> c:\nnet.foo -> d:\n";
    let index = MappingIndex::parse(text).unwrap();
    let found = index.find_classes_by_substring("Foo");
    let names: Vec<&str> = found.iter().map(|c| c.obfed.as_str()).collect();
    assert_eq!(names, vec!["a", "c"]);
    assert!(index.find_classes_by_substring("Baz").is_empty());
    assert_eq!(index.find_classes_by_substring("net.FooBar").len(), 1);
    assert!(index.find_classes_by_substring("net.FooBarX").is_empty());
}

#[test]
fn member_searches() {
    let data = block(&[
        "K -> k:",
        "    int count -> a",
        "    int total -> b",
        "    void reset() -> c",
        "    int count() -> d",
    ]);
    let c = ProguardClass::deserialize(&data).unwrap();
    let fields = c.find_fields_by_substring("count");
    assert_eq!(fields.len(), 1);
    assert_eq!(fields[0].obfed, "a");
    let methods = c.find_methods_by_substring("()");
    let names: Vec<&str> = methods.iter().map(|m| m.obfed.as_str()).collect();
    assert_eq!(names, vec!["c", "d"]);
    assert!(c.find_fields_by_substring("").is_empty());
    assert!(c.find_methods_by_substring("").is_empty());
}

#[test]
fn copy_is_equal_and_independent() {
    let data = block(&["A -> a:", "    int x -> b", "    void f() -> c"]);
    let source = ProguardClass::deserialize(&data).unwrap();
    let mut copy = source.copy();
    assert_eq!(copy.deobfed, source.deobfed);
    assert_eq!(copy.obfed, source.obfed);
    assert_eq!(copy.fields[0].deobfed, source.fields[0].deobfed);
    assert_eq!(copy.methods[0].obfed, source.methods[0].obfed);
    copy.deobfed.push_str("Changed");
    copy.fields[0].obfed.push('z');
    copy.methods.clear();
    assert_eq!(source.deobfed, "A");
    assert_eq!(source.fields[0].obfed, "b");
    assert_eq!(source.methods.len(), 1);
}

#[test]
fn member_copies() {
    let f = ProguardField::deserialize(&"    int x -> q".to_string()).unwrap();
    let g = f.copy();
    assert_eq!(g.deobfed, "int x");
    assert_eq!(g.obfed, "q");
    let m = ProguardMethod::deserialize(&"    void f() -> r".to_string()).unwrap();
    let n = m.copy();
    assert_eq!(n.deobfed, "void f()");
    assert_eq!(n.obfed, "r");
}

#[test]
fn no_separator_is_empty_document() {
    assert!(matches!(MappingIndex::parse("just text\n\n# nothing here"), Err(MappingError::EmptyDocument)));
    assert!(matches!(MappingIndex::parse(""), Err(MappingError::EmptyDocument)));
}

#[test]
fn three_spaces_is_malformed_indent() {
    let r = ProguardField::deserialize(&"   int bar -> b".to_string());
    match r {
        Err(MappingError::MalformedIndent(line)) => assert_eq!(line, "   int bar -> b"),
        other => panic!("unexpected result: {:?}", other),
    }
}

#[test]
fn field_without_separator_is_malformed_field() {
    let r = ProguardField::deserialize(&"    int bar b".to_string());
    assert!(matches!(r, Err(MappingError::MalformedField(_))));
}

#[test]
fn method_without_separator_is_malformed_method() {
    let r = ProguardMethod::deserialize(&"    1:2:void f() b".to_string());
    assert!(matches!(r, Err(MappingError::MalformedMethod(_))));
}

#[test]
fn header_without_separator_is_malformed_header() {
    let r = ProguardClass::deserialize(&block(&["a.b.Foo x.y.z:"]));
    assert!(matches!(r, Err(MappingError::MalformedHeader(_))));
}

#[test]
fn header_with_empty_name_is_malformed_header() {
    let r = ProguardClass::deserialize(&block(&["a.b.Foo -> :"]));
    assert!(matches!(r, Err(MappingError::MalformedHeader(_))));
}

#[test]
fn empty_block_is_empty_document() {
    assert!(matches!(ProguardClass::deserialize(&Vec::new()), Err(MappingError::EmptyDocument)));
}

#[test]
fn member_before_any_header_is_malformed_header() {
    let r = MappingIndex::parse("    int x -> a\nA -> a:\n");
    match r {
        Err(MappingError::MalformedHeader(line)) => assert_eq!(line, "    int x -> a"),
        other => panic!("unexpected result: {:?}", other),
    }
}

#[test]
fn malformed_member_aborts_document() {
    let r = MappingIndex::parse("A -> a:\n    int x -> a\nB -> b:\n    void g( -> \n");
    assert!(matches!(r, Err(MappingError::MalformedMethod(_))));
}

#[test]
fn first_separator_splits_header() {
    let c = ProguardClass::deserialize(&block(&["A -> b -> c:"])).unwrap();
    assert_eq!(c.deobfed, "A");
    assert_eq!(c.obfed, "b -> c");
}

#[test]
fn non_ascii_names_survive() {
    let index = MappingIndex::parse("ñ.Überklasse -> é:\n    int größe -> ß\n").unwrap();
    let c = &index.all_classes()[0];
    assert_eq!(c.deobfed, "ñ.Überklasse");
    assert_eq!(c.obfed, "é");
    assert_eq!(c.fields[0].deobfed, "int größe");
    assert_eq!(c.fields[0].obfed, "ß");
}
