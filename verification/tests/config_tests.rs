use compare_tool::config::{
    apply_overrides, get_profile, parse_config, parse_profile, Profile, RawEntry, RawEntryValue,
    RawField, RawItem, RawLeaf, RawTable, RawValue,
};

fn s(x: &str) -> String {
    x.to_owned()
}

fn str_leaf(x: &str) -> RawLeaf {
    RawLeaf::Str(s(x))
}

fn field(name: &str, value: RawValue) -> RawField {
    RawField {
        name: s(name),
        value,
    }
}

fn str_field(name: &str, value: &str) -> RawField {
    field(name, RawValue::Leaf(str_leaf(value)))
}

fn bool_field(name: &str, value: bool) -> RawField {
    field(name, RawValue::Leaf(RawLeaf::Bool(value)))
}

fn commands_field(cmds: &[&[&str]]) -> RawField {
    let items: Vec<RawItem> = cmds
        .iter()
        .map(|c| RawItem::Arr(c.iter().map(|x| str_leaf(x)).collect()))
        .collect();
    field("commands", RawValue::Arr(items))
}

fn inputs_field(ins: &[&str]) -> RawField {
    let items: Vec<RawItem> = ins.iter().map(|x| RawItem::Leaf(str_leaf(x))).collect();
    field("inputs", RawValue::Arr(items))
}

fn entry(name: &str, fields: Vec<RawField>) -> RawEntry {
    RawEntry {
        name: s(name),
        value: RawEntryValue::Table(fields),
    }
}

fn table(entries: Vec<RawEntry>) -> RawTable {
    RawTable { entries }
}

fn cmd_triples(p: &Profile) -> Vec<(String, String, String)> {
    p.commands.clone()
}

#[test]
fn resolves_simple_profile() {
    let t = table(vec![entry(
        "base",
        vec![
            commands_field(&[&["gzip", "-9", "gz"]]),
            inputs_field(&["a.txt", "b.txt"]),
            bool_field("compare_commands", false),
            bool_field("with_mem", true),
        ],
    )]);
    let p = parse_profile("base", &t).unwrap();
    assert_eq!(p.inputs, vec![s("a.txt"), s("b.txt")]);
    assert_eq!(cmd_triples(&p), vec![(s("gzip"), s("-9"), s("gz"))]);
    assert!(!p.compare_commands);
    assert!(p.with_mem);
    assert_eq!(p.runtime_iterations, None);
}

#[test]
fn defaults_without_fields() {
    let t = table(vec![entry("empty", vec![])]);
    let p = parse_profile("empty", &t).unwrap();
    assert!(p.inputs.is_empty());
    assert!(p.commands.is_empty());
    assert!(p.compare_commands);
    assert!(!p.with_mem);
    assert_eq!(p.runtime_iterations, None);
}

#[test]
fn two_tuple_command_gets_empty_extension() {
    let t = table(vec![entry(
        "base",
        vec![commands_field(&[&["cat", "-"]])],
    )]);
    let p = parse_profile("base", &t).unwrap();
    assert_eq!(cmd_triples(&p), vec![(s("cat"), s("-"), s(""))]);
}

#[test]
fn inheritance_chain_overlays_in_order() {
    // a inherits b inherits c: c's fields are the base, b and a overlay.
    let t = table(vec![
        entry(
            "a",
            vec![str_field("inherit_from", "b"), bool_field("with_mem", true)],
        ),
        entry(
            "b",
            vec![
                str_field("inherit_from", "c"),
                inputs_field(&["b.txt"]),
            ],
        ),
        entry(
            "c",
            vec![
                commands_field(&[&["xz", "-6", "xz"]]),
                inputs_field(&["c.txt"]),
                bool_field("compare_commands", false),
            ],
        ),
    ]);
    let p = parse_profile("a", &t).unwrap();
    // commands come from c, untouched by b and a
    assert_eq!(cmd_triples(&p), vec![(s("xz"), s("-6"), s("xz"))]);
    // inputs were replaced whole by b
    assert_eq!(p.inputs, vec![s("b.txt")]);
    // booleans: compare_commands from c survives, with_mem set by a
    assert!(!p.compare_commands);
    assert!(p.with_mem);
}

#[test]
fn omitted_child_fields_keep_inherited_values() {
    let t = table(vec![
        entry("child", vec![str_field("inherit_from", "parent")]),
        entry(
            "parent",
            vec![
                commands_field(&[&["gzip", "-9", "gz"]]),
                inputs_field(&["p.txt"]),
                bool_field("with_mem", true),
            ],
        ),
    ]);
    let p = parse_profile("child", &t).unwrap();
    assert_eq!(p.inputs, vec![s("p.txt")]);
    assert_eq!(cmd_triples(&p), vec![(s("gzip"), s("-9"), s("gz"))]);
    assert!(p.with_mem);
}

#[test]
fn cyclic_inheritance_fails_deterministically() {
    let t = table(vec![
        entry("a", vec![str_field("inherit_from", "b")]),
        entry("b", vec![str_field("inherit_from", "a")]),
    ]);
    let e = parse_profile("a", &t).unwrap_err();
    assert_eq!(e.field, s("inherit_from"));
    // the error is the same on every run
    let e2 = parse_profile("a", &t).unwrap_err();
    assert_eq!(e2.field, s("inherit_from"));
}

#[test]
fn self_inheritance_fails() {
    let t = table(vec![entry("a", vec![str_field("inherit_from", "a")])]);
    let e = parse_profile("a", &t).unwrap_err();
    assert_eq!(e.field, s("inherit_from"));
}

#[test]
fn missing_profile_is_an_error() {
    let t = table(vec![entry("present", vec![])]);
    let e = parse_profile("absent", &t).unwrap_err();
    assert_eq!(e.field, s("absent"));
}

#[test]
fn non_table_entry_is_an_error() {
    let t = table(vec![RawEntry {
        name: s("scalar"),
        value: RawEntryValue::NotTable,
    }]);
    let e = parse_profile("scalar", &t).unwrap_err();
    assert_eq!(e.field, s("scalar"));
}

#[test]
fn malformed_commands_name_the_field() {
    // a one-element command tuple is neither a pair nor a triple
    let t = table(vec![entry(
        "bad",
        vec![commands_field(&[&["only-one"]])],
    )]);
    let e = parse_profile("bad", &t).unwrap_err();
    assert_eq!(e.field, s("commands"));
    // a non-string element inside a command tuple
    let t2 = table(vec![entry(
        "bad",
        vec![field(
            "commands",
            RawValue::Arr(vec![RawItem::Arr(vec![
                str_leaf("gzip"),
                RawLeaf::Int(9),
            ])]),
        )],
    )]);
    let e2 = parse_profile("bad", &t2).unwrap_err();
    assert_eq!(e2.field, s("commands"));
    // commands not an array at all
    let t3 = table(vec![entry(
        "bad",
        vec![str_field("commands", "gzip")],
    )]);
    let e3 = parse_profile("bad", &t3).unwrap_err();
    assert_eq!(e3.field, s("commands"));
}

#[test]
fn malformed_inputs_name_the_field() {
    let t = table(vec![entry(
        "bad",
        vec![field(
            "inputs",
            RawValue::Arr(vec![RawItem::Leaf(RawLeaf::Bool(true))]),
        )],
    )]);
    let e = parse_profile("bad", &t).unwrap_err();
    assert_eq!(e.field, s("inputs"));
}

#[test]
fn malformed_booleans_and_iterations_name_the_field() {
    let t = table(vec![entry(
        "bad",
        vec![str_field("compare_commands", "yes")],
    )]);
    assert_eq!(parse_profile("bad", &t).unwrap_err().field, s("compare_commands"));
    let t2 = table(vec![entry("bad", vec![str_field("with_mem", "yes")])]);
    assert_eq!(parse_profile("bad", &t2).unwrap_err().field, s("with_mem"));
    let t3 = table(vec![entry("bad", vec![str_field("iterations", "3")])]);
    assert_eq!(parse_profile("bad", &t3).unwrap_err().field, s("iterations"));
}

#[test]
fn malformed_parent_reference_names_inherit_from() {
    let t = table(vec![entry(
        "bad",
        vec![field("inherit_from", RawValue::Leaf(RawLeaf::Int(3)))],
    )]);
    assert_eq!(parse_profile("bad", &t).unwrap_err().field, s("inherit_from"));
}

#[test]
fn iterations_are_read() {
    let t = table(vec![entry(
        "p",
        vec![field("iterations", RawValue::Leaf(RawLeaf::Int(7)))],
    )]);
    let p = parse_profile("p", &t).unwrap();
    assert_eq!(p.runtime_iterations, Some(7));
}

#[test]
fn parse_config_resolves_every_entry() {
    let t = table(vec![
        entry("one", vec![inputs_field(&["x"])]),
        entry("two", vec![str_field("inherit_from", "one")]),
    ]);
    let cfg = parse_config(&t).unwrap();
    assert_eq!(cfg.profiles.len(), 2);
    assert_eq!(cfg.profiles[0].0, s("one"));
    assert_eq!(cfg.profiles[1].0, s("two"));
    assert_eq!(cfg.profiles[1].1.inputs, vec![s("x")]);
    let p = get_profile(&cfg, "two").unwrap();
    assert_eq!(p.inputs, vec![s("x")]);
    assert!(get_profile(&cfg, "three").is_none());
}

#[test]
fn parse_config_fails_on_any_bad_entry() {
    let t = table(vec![
        entry("good", vec![]),
        entry("bad", vec![str_field("commands", "gzip")]),
    ]);
    let e = parse_config(&t).unwrap_err();
    assert_eq!(e.field, s("commands"));
}

#[test]
fn overrides_force_memory_on() {
    let t = table(vec![entry("p", vec![])]);
    let p = parse_profile("p", &t).unwrap();
    assert!(!p.with_mem);
    let q = apply_overrides(p, true);
    assert!(q.with_mem);
    let r = apply_overrides(q, false);
    assert!(r.with_mem);
}
