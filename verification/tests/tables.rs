use strawberry::utils::table::{table_add, ClassTable, StrMap, SymbolTable, Tables};
use strawberry::utils::util::{align_to_16_bit, do_vecs_match, fix_offset, source_line};

fn s(x: &str) -> String {
    x.to_string()
}

#[test]
fn symbol_table_finds_what_was_added() {
    let mut st: SymbolTable<String> = SymbolTable::new();
    st.enter_scope();
    st.add(&s("x"), &s("int"));
    assert_eq!(st.find(&s("x")), Some(&s("int")));
    assert_eq!(st.find(&s("y")), None);
}

#[test]
fn symbol_table_inner_scope_hides_outer() {
    let mut st: SymbolTable<String> = SymbolTable::new();
    st.enter_scope();
    st.add(&s("x"), &s("int"));
    st.enter_scope();
    st.add(&s("x"), &s("String"));
    assert_eq!(st.find(&s("x")), Some(&s("String")));
    st.exit_scope();
    assert_eq!(st.find(&s("x")), Some(&s("int")));
}

#[test]
fn symbol_table_add_without_scope_is_dropped() {
    let mut st: SymbolTable<String> = SymbolTable::new();
    st.add(&s("x"), &s("int"));
    assert_eq!(st.find(&s("x")), None);
    st.exit_scope();
    assert_eq!(st.find(&s("x")), None);
}

#[test]
fn str_map_insert_replaces() {
    let mut m: StrMap<String> = StrMap::new();
    m.insert(s("a"), s("1"));
    m.insert(s("b"), s("2"));
    m.insert(s("a"), s("3"));
    assert_eq!(m.get(&s("a")), Some(&s("3")));
    assert!(m.contains_key(&s("b")));
    assert!(!m.contains_key(&s("c")));
    assert_eq!(m.entries.len(), 2);
}

#[test]
fn tables_keep_each_string_once() {
    let mut t = Tables::new();
    table_add(&mut t.string_table, s("x"));
    table_add(&mut t.string_table, s("y"));
    table_add(&mut t.string_table, s("x"));
    assert_eq!(t.string_table, vec![s("x"), s("y")]);
}

#[test]
fn subtype_is_reflexive_without_table() {
    let ct = ClassTable::new();
    assert!(ct.is_less_or_equal(&s("A"), &s("A")));
    assert!(!ct.is_less_or_equal(&s("A"), &s("B")));
}

#[test]
fn vectors_match_only_when_equal() {
    assert!(do_vecs_match(&vec![s("a"), s("b")], &vec![s("a"), s("b")]));
    assert!(!do_vecs_match(&vec![s("a"), s("b")], &vec![s("a")]));
    assert!(!do_vecs_match(&vec![s("a")], &vec![s("b")]));
    assert!(do_vecs_match::<String>(&vec![], &vec![]));
}

#[test]
fn align_rounds_up_to_sixteen() {
    assert_eq!(align_to_16_bit(0), 0);
    assert_eq!(align_to_16_bit(1), 16);
    assert_eq!(align_to_16_bit(16), 16);
    assert_eq!(align_to_16_bit(17), 32);
    assert_eq!(align_to_16_bit(40), 48);
    assert_eq!(align_to_16_bit(align_to_16_bit(40)), 48);
}

#[test]
fn tabs_become_four_spaces() {
    assert_eq!(fix_offset(s("a\tb")), s("a    b"));
    assert_eq!(fix_offset(s("\t\t")), s("        "));
    assert_eq!(fix_offset(s("no tabs")), s("no tabs"));
    assert_eq!(fix_offset(fix_offset(s("x\ty"))), s("x    y"));
}

#[test]
fn source_lines_are_counted_from_one() {
    let text = "a\r\nb\n\nc";
    assert_eq!(source_line(text, 0), None);
    assert_eq!(source_line(text, 1), Some("a".to_string()));
    assert_eq!(source_line(text, 2), Some("b".to_string()));
    assert_eq!(source_line(text, 3), Some("".to_string()));
    assert_eq!(source_line(text, 4), Some("c".to_string()));
    assert_eq!(source_line(text, 5), None);
    assert_eq!(source_line("x\n", 2), None);
    assert_eq!(source_line("x\r", 1), Some("x\r".to_string()));
    for (i, l) in text.lines().enumerate() {
        assert_eq!(source_line(text, i + 1), Some(l.to_string()));
    }
}

#[test]
fn a_scope_entered_and_left_restores_every_lookup() {
    let mut st: SymbolTable<String> = SymbolTable::new();
    st.enter_scope();
    st.add(&s("x"), &s("int"));
    st.add(&s("y"), &s("Bool"));
    st.enter_scope();
    st.add(&s("x"), &s("String"));
    st.add(&s("z"), &s("Main"));
    st.add(&s("y"), &s("int"));
    assert_eq!(st.find(&s("x")), Some(&s("String")));
    st.exit_scope();
    assert_eq!(st.find(&s("x")), Some(&s("int")));
    assert_eq!(st.find(&s("y")), Some(&s("Bool")));
    assert_eq!(st.find(&s("z")), None);
}
