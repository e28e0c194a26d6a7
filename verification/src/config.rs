//! The profile table: a dynamic configuration document modelled as plain
//! values, and its resolution into an effective `Profile` — single-parent
//! inheritance, overlay of explicitly present fields, and a visited-name
//! cycle guard.
use vstd::prelude::*;

use crate::text::str_eq;

verus! {

/// A scalar of the configuration document.
pub enum RawLeaf {
    Str(String),
    Int(i64),
    Bool(bool),
    Other,
}

/// An element of a top-level array: a scalar or an array of scalars.
pub enum RawItem {
    Leaf(RawLeaf),
    Arr(Vec<RawLeaf>),
}

/// A field value: a scalar or an array. Anything nested deeper than the
/// document's schema uses appears as `RawLeaf::Other` and is rejected by
/// decoding.
pub enum RawValue {
    Leaf(RawLeaf),
    Arr(Vec<RawItem>),
}

/// One named field of a profile entry.
pub struct RawField {
    pub name: String,
    pub value: RawValue,
}

/// What a top-level key maps to: a table of fields, or something else.
pub enum RawEntryValue {
    Table(Vec<RawField>),
    NotTable,
}

/// One top-level entry of the document: a profile name and its value.
pub struct RawEntry {
    pub name: String,
    pub value: RawEntryValue,
}

/// The whole configuration document: its top-level entries in order.
pub struct RawTable {
    pub entries: Vec<RawEntry>,
}

/// A resolved benchmarking profile.
#[derive(Debug, Clone)]
pub struct Profile {
    pub inputs: Vec<String>,
    pub commands: Vec<(String, String, String)>,
    pub compare_commands: bool,
    pub with_mem: bool,
    pub runtime_iterations: Option<i64>,
}

/// The mathematical image of a `Profile`.
pub ghost struct ProfileV {
    pub inputs: Seq<Seq<char>>,
    pub commands: Seq<(Seq<char>, Seq<char>, Seq<char>)>,
    pub compare_commands: bool,
    pub with_mem: bool,
    pub runtime_iterations: Option<i64>,
}

impl View for Profile {
    type V = ProfileV;

    open spec fn view(&self) -> ProfileV {
        ProfileV {
            inputs: self.inputs@.map_values(|s: String| s@),
            commands: self.commands@.map_values(
                |t: (String, String, String)| (t.0@, t.1@, t.2@),
            ),
            compare_commands: self.compare_commands,
            with_mem: self.with_mem,
            runtime_iterations: self.runtime_iterations,
        }
    }
}

/// A malformed or missing part of the configuration document; `field` names
/// the offending key or profile.
#[derive(Debug)]
pub struct TomlErr {
    pub field: String,
}

/// The defaults a profile without a parent starts from.
pub open spec fn default_profile_v() -> ProfileV {
    ProfileV {
        inputs: Seq::empty(),
        commands: Seq::empty(),
        compare_commands: true,
        with_mem: false,
        runtime_iterations: None,
    }
}

/// The default profile: empty sequences, commands compared, no memory
/// instrumentation.
pub fn default_profile() -> (r: Profile)
    ensures
        r@ == default_profile_v(),
{
    let r = Profile {
        inputs: Vec::new(),
        commands: Vec::new(),
        compare_commands: true,
        with_mem: false,
        runtime_iterations: None,
    };
    proof {
        assert(r@.inputs =~= default_profile_v().inputs);
        assert(r@.commands =~= default_profile_v().commands);
    }
    r
}

/// The first entry of the given name, if any.
pub open spec fn lookup_spec(entries: Seq<RawEntry>, name: Seq<char>) -> Option<RawEntry>
    decreases entries.len(),
{
    if entries.len() == 0 {
        None
    } else if entries[0].name@ == name {
        Some(entries[0])
    } else {
        lookup_spec(entries.drop_first(), name)
    }
}

/// The fields of an entry, if it is a table.
pub open spec fn fields_of(e: RawEntry) -> Option<Seq<RawField>> {
    match e.value {
        RawEntryValue::Table(fs) => Some(fs@),
        RawEntryValue::NotTable => None,
    }
}

/// The field table of the named entry, if the entry exists and is a table.
pub open spec fn entry_table(entries: Seq<RawEntry>, name: Seq<char>) -> Option<Seq<RawField>> {
    match lookup_spec(entries, name) {
        None => None,
        Some(e) => fields_of(e),
    }
}

/// The first field of the given name, if any.
pub open spec fn field_spec(fields: Seq<RawField>, key: Seq<char>) -> Option<RawValue>
    decreases fields.len(),
{
    if fields.len() == 0 {
        None
    } else if fields[0].name@ == key {
        Some(fields[0].value)
    } else {
        field_spec(fields.drop_first(), key)
    }
}

proof fn lemma_lookup_at(entries: Seq<RawEntry>, name: Seq<char>, i: int)
    requires
        0 <= i < entries.len(),
        entries[i].name@ == name,
        forall|j: int| 0 <= j < i ==> entries[j].name@ != name,
    ensures
        lookup_spec(entries, name) == Some(entries[i]),
    decreases i,
{
    if i > 0 {
        lemma_lookup_at(entries.drop_first(), name, i - 1);
    }
}

proof fn lemma_lookup_none(entries: Seq<RawEntry>, name: Seq<char>)
    requires
        forall|j: int| 0 <= j < entries.len() ==> entries[j].name@ != name,
    ensures
        lookup_spec(entries, name) is None,
    decreases entries.len(),
{
    if entries.len() > 0 {
        lemma_lookup_none(entries.drop_first(), name);
    }
}

proof fn lemma_field_at(fields: Seq<RawField>, key: Seq<char>, i: int)
    requires
        0 <= i < fields.len(),
        fields[i].name@ == key,
        forall|j: int| 0 <= j < i ==> fields[j].name@ != key,
    ensures
        field_spec(fields, key) == Some(fields[i].value),
    decreases i,
{
    if i > 0 {
        lemma_field_at(fields.drop_first(), key, i - 1);
    }
}

proof fn lemma_field_none(fields: Seq<RawField>, key: Seq<char>)
    requires
        forall|j: int| 0 <= j < fields.len() ==> fields[j].name@ != key,
    ensures
        field_spec(fields, key) is None,
    decreases fields.len(),
{
    if fields.len() > 0 {
        lemma_field_none(fields.drop_first(), key);
    }
}

/// Finds the first entry with the given name.
fn lookup<'a>(entries: &'a Vec<RawEntry>, name: &str) -> (r: Option<&'a RawEntry>)
    ensures
        match r {
            Some(e) => lookup_spec(entries@, name@) == Some(*e),
            None => lookup_spec(entries@, name@) is None,
        },
{
    let mut i: usize = 0;
    while i < entries.len()
        invariant
            i <= entries@.len(),
            forall|j: int| 0 <= j < i ==> entries@[j].name@ != name@,
        decreases entries@.len() - i,
    {
        if str_eq(entries[i].name.as_str(), name) {
            proof {
                lemma_lookup_at(entries@, name@, i as int);
            }
            return Some(&entries[i]);
        }
        i = i + 1;
    }
    proof {
        lemma_lookup_none(entries@, name@);
    }
    None
}

/// Finds the first field with the given key.
fn field_of<'a>(fields: &'a Vec<RawField>, key: &str) -> (r: Option<&'a RawValue>)
    ensures
        match r {
            Some(v) => field_spec(fields@, key@) == Some(*v),
            None => field_spec(fields@, key@) is None,
        },
{
    let mut i: usize = 0;
    while i < fields.len()
        invariant
            i <= fields@.len(),
            forall|j: int| 0 <= j < i ==> fields@[j].name@ != key@,
        decreases fields@.len() - i,
    {
        if str_eq(fields[i].name.as_str(), key) {
            proof {
                lemma_field_at(fields@, key@, i as int);
            }
            return Some(&fields[i].value);
        }
        i = i + 1;
    }
    proof {
        lemma_field_none(fields@, key@);
    }
    None
}

/// The string held by a scalar, if it is one.
pub open spec fn leaf_str(l: RawLeaf) -> Option<Seq<char>> {
    match l {
        RawLeaf::Str(s) => Some(s@),
        _ => None,
    }
}

/// The string a scalar holds, with a placeholder for non-strings.
pub open spec fn leaf_str_val(l: RawLeaf) -> Seq<char> {
    match l {
        RawLeaf::Str(s) => s@,
        _ => Seq::empty(),
    }
}

/// The string held by a field value, if it is a string scalar.
pub open spec fn str_of(v: RawValue) -> Option<Seq<char>> {
    match v {
        RawValue::Leaf(l) => leaf_str(l),
        _ => None,
    }
}

/// The boolean held by a field value, if it is a boolean scalar.
pub open spec fn bool_of(v: RawValue) -> Option<bool> {
    match v {
        RawValue::Leaf(RawLeaf::Bool(b)) => Some(b),
        _ => None,
    }
}

/// The integer held by a field value, if it is an integer scalar.
pub open spec fn int_of(v: RawValue) -> Option<i64> {
    match v {
        RawValue::Leaf(RawLeaf::Int(i)) => Some(i),
        _ => None,
    }
}

/// Whether a command entry has the expected shape: a tuple of two or three
/// strings.
pub open spec fn command_ok(it: RawItem) -> bool {
    match it {
        RawItem::Arr(ls) => (ls@.len() == 2 && leaf_str(ls@[0]) is Some && leaf_str(ls@[1])
            is Some) || (ls@.len() == 3 && leaf_str(ls@[0]) is Some && leaf_str(ls@[1]) is Some
            && leaf_str(ls@[2]) is Some),
        RawItem::Leaf(_) => false,
    }
}

/// The command spec a well-shaped entry decodes to; a two-tuple gets an
/// empty output extension.
pub open spec fn command_val(it: RawItem) -> (Seq<char>, Seq<char>, Seq<char>) {
    match it {
        RawItem::Arr(ls) => if ls@.len() == 2 {
            (leaf_str_val(ls@[0]), leaf_str_val(ls@[1]), Seq::empty())
        } else {
            (leaf_str_val(ls@[0]), leaf_str_val(ls@[1]), leaf_str_val(ls@[2]))
        },
        RawItem::Leaf(_) => (Seq::empty(), Seq::empty(), Seq::empty()),
    }
}

/// Decodes a command list; any ill-shaped element fails the whole list.
pub open spec fn decode_commands(items: Seq<RawItem>) -> Option<
    Seq<(Seq<char>, Seq<char>, Seq<char>)>,
> {
    if forall|k: int| 0 <= k < items.len() ==> command_ok(#[trigger] items[k]) {
        Some(Seq::new(items.len(), |k: int| command_val(items[k])))
    } else {
        None
    }
}

/// Whether an input entry is a string.
pub open spec fn input_ok(it: RawItem) -> bool {
    match it {
        RawItem::Leaf(l) => leaf_str(l) is Some,
        RawItem::Arr(_) => false,
    }
}

/// The path expression a well-shaped input entry decodes to.
pub open spec fn input_val(it: RawItem) -> Seq<char> {
    match it {
        RawItem::Leaf(l) => leaf_str_val(l),
        RawItem::Arr(_) => Seq::empty(),
    }
}

/// Decodes an input list; any non-string element fails the whole list.
pub open spec fn decode_inputs(items: Seq<RawItem>) -> Option<Seq<Seq<char>>> {
    if forall|k: int| 0 <= k < items.len() ==> input_ok(#[trigger] items[k]) {
        Some(Seq::new(items.len(), |k: int| input_val(items[k])))
    } else {
        None
    }
}

/// The command list after overlaying one entry's `commands` field: kept when
/// the field is absent, replaced when present and well-shaped, an error
/// otherwise.
pub open spec fn overlay_commands(
    base: Seq<(Seq<char>, Seq<char>, Seq<char>)>,
    fields: Seq<RawField>,
) -> Result<Seq<(Seq<char>, Seq<char>, Seq<char>)>, Seq<char>> {
    match field_spec(fields, "commands"@) {
        None => Ok(base),
        Some(v) => match v {
            RawValue::Arr(items) => match decode_commands(items@) {
                Some(cs) => Ok(cs),
                None => Err("commands"@),
            },
            RawValue::Leaf(_) => Err("commands"@),
        },
    }
}

/// The input list after overlaying one entry's `inputs` field.
pub open spec fn overlay_inputs(base: Seq<Seq<char>>, fields: Seq<RawField>) -> Result<
    Seq<Seq<char>>,
    Seq<char>,
> {
    match field_spec(fields, "inputs"@) {
        None => Ok(base),
        Some(v) => match v {
            RawValue::Arr(items) => match decode_inputs(items@) {
                Some(ins) => Ok(ins),
                None => Err("inputs"@),
            },
            RawValue::Leaf(_) => Err("inputs"@),
        },
    }
}

/// A boolean option after overlaying the field named `key`.
pub open spec fn overlay_flag(base: bool, fields: Seq<RawField>, key: Seq<char>) -> Result<
    bool,
    Seq<char>,
> {
    match field_spec(fields, key) {
        None => Ok(base),
        Some(v) => match bool_of(v) {
            Some(b) => Ok(b),
            None => Err(key),
        },
    }
}

/// The iteration count after overlaying one entry's `iterations` field.
pub open spec fn overlay_iterations(base: Option<i64>, fields: Seq<RawField>) -> Result<
    Option<i64>,
    Seq<char>,
> {
    match field_spec(fields, "iterations"@) {
        None => Ok(base),
        Some(v) => match int_of(v) {
            Some(i) => Ok(Some(i)),
            None => Err("iterations"@),
        },
    }
}

/// A profile after overlaying one entry's explicitly present fields onto a
/// base: sequences are replaced whole, scalars replaced singly, absent
/// fields never touch the base. The first malformed field names the error.
pub open spec fn overlay_spec(base: ProfileV, fields: Seq<RawField>) -> Result<
    ProfileV,
    Seq<char>,
> {
    match overlay_commands(base.commands, fields) {
        Err(e) => Err(e),
        Ok(cs) => match overlay_inputs(base.inputs, fields) {
            Err(e) => Err(e),
            Ok(ins) => match overlay_flag(base.compare_commands, fields, "compare_commands"@) {
                Err(e) => Err(e),
                Ok(cc) => match overlay_flag(base.with_mem, fields, "with_mem"@) {
                    Err(e) => Err(e),
                    Ok(wm) => match overlay_iterations(base.runtime_iterations, fields) {
                        Err(e) => Err(e),
                        Ok(iters) => Ok(
                            ProfileV {
                                inputs: ins,
                                commands: cs,
                                compare_commands: cc,
                                with_mem: wm,
                                runtime_iterations: iters,
                            },
                        ),
                    },
                },
            },
        },
    }
}

fn decode_commands_exec(items: &Vec<RawItem>) -> (r: Option<Vec<(String, String, String)>>)
    ensures
        match r {
            Some(cs) => decode_commands(items@) == Some(
                cs@.map_values(|t: (String, String, String)| (t.0@, t.1@, t.2@)),
            ),
            None => decode_commands(items@) is None,
        },
{
    let mut out: Vec<(String, String, String)> = Vec::new();
    let mut k: usize = 0;
    while k < items.len()
        invariant
            k <= items@.len(),
            out@.len() == k,
            forall|t: int| 0 <= t < k ==> command_ok(#[trigger] items@[t]),
            forall|t: int|
                0 <= t < k ==> (#[trigger] out@[t].0@, out@[t].1@, out@[t].2@) == command_val(
                    items@[t],
                ),
        decreases items@.len() - k,
    {
        match &items[k] {
            RawItem::Leaf(_) => {
                proof {
                    assert(!command_ok(items@[k as int]));
                }
                return None;
            },
            RawItem::Arr(ls) => {
                if ls.len() == 2 {
                    let a = match &ls[0] {
                        RawLeaf::Str(s) => s.clone(),
                        _ => {
                            proof {
                                assert(!command_ok(items@[k as int]));
                            }
                            return None;
                        },
                    };
                    let b = match &ls[1] {
                        RawLeaf::Str(s) => s.clone(),
                        _ => {
                            proof {
                                assert(!command_ok(items@[k as int]));
                            }
                            return None;
                        },
                    };
                    out.push((a, b, String::new()));
                } else if ls.len() == 3 {
                    let a = match &ls[0] {
                        RawLeaf::Str(s) => s.clone(),
                        _ => {
                            proof {
                                assert(!command_ok(items@[k as int]));
                            }
                            return None;
                        },
                    };
                    let b = match &ls[1] {
                        RawLeaf::Str(s) => s.clone(),
                        _ => {
                            proof {
                                assert(!command_ok(items@[k as int]));
                            }
                            return None;
                        },
                    };
                    let c = match &ls[2] {
                        RawLeaf::Str(s) => s.clone(),
                        _ => {
                            proof {
                                assert(!command_ok(items@[k as int]));
                            }
                            return None;
                        },
                    };
                    out.push((a, b, c));
                } else {
                    proof {
                        assert(!command_ok(items@[k as int]));
                    }
                    return None;
                }
            },
        }
        k = k + 1;
    }
    proof {
        assert(out@.map_values(|t: (String, String, String)| (t.0@, t.1@, t.2@)) =~= Seq::new(
            items@.len(),
            |t: int| command_val(items@[t]),
        ));
    }
    Some(out)
}

fn decode_inputs_exec(items: &Vec<RawItem>) -> (r: Option<Vec<String>>)
    ensures
        match r {
            Some(ins) => decode_inputs(items@) == Some(ins@.map_values(|s: String| s@)),
            None => decode_inputs(items@) is None,
        },
{
    let mut out: Vec<String> = Vec::new();
    let mut k: usize = 0;
    while k < items.len()
        invariant
            k <= items@.len(),
            out@.len() == k,
            forall|t: int| 0 <= t < k ==> input_ok(#[trigger] items@[t]),
            forall|t: int| 0 <= t < k ==> (#[trigger] out@[t]@) == input_val(items@[t]),
        decreases items@.len() - k,
    {
        match &items[k] {
            RawItem::Leaf(RawLeaf::Str(s)) => {
                out.push(s.clone());
            },
            _ => {
                proof {
                    assert(!input_ok(items@[k as int]));
                }
                return None;
            },
        }
        k = k + 1;
    }
    proof {
        assert(out@.map_values(|s: String| s@) =~= Seq::new(
            items@.len(),
            |t: int| input_val(items@[t]),
        ));
    }
    Some(out)
}

/// Overlays one entry's explicitly present fields onto a base profile.
fn overlay(base: Profile, fields: &Vec<RawField>) -> (r: Result<Profile, TomlErr>)
    ensures
        match r {
            Ok(p) => overlay_spec(base@, fields@) == Ok::<ProfileV, Seq<char>>(p@),
            Err(e) => overlay_spec(base@, fields@) == Err::<ProfileV, Seq<char>>(e.field@),
        },
{
    let ghost gbase = base@;
    let Profile {
        inputs: binputs,
        commands: bcommands,
        compare_commands: bcc,
        with_mem: bwm,
        runtime_iterations: biters,
    } = base;
    let cs: Vec<(String, String, String)> = match field_of(fields, "commands") {
        None => bcommands,
        Some(v) => match v {
            RawValue::Arr(items) => match decode_commands_exec(items) {
                Some(cs) => cs,
                None => {
                    return Err(TomlErr { field: String::from_str("commands") });
                },
            },
            RawValue::Leaf(_) => {
                return Err(TomlErr { field: String::from_str("commands") });
            },
        },
    };
    let ins: Vec<String> = match field_of(fields, "inputs") {
        None => binputs,
        Some(v) => match v {
            RawValue::Arr(items) => match decode_inputs_exec(items) {
                Some(ins) => ins,
                None => {
                    return Err(TomlErr { field: String::from_str("inputs") });
                },
            },
            RawValue::Leaf(_) => {
                return Err(TomlErr { field: String::from_str("inputs") });
            },
        },
    };
    let cc: bool = match field_of(fields, "compare_commands") {
        None => bcc,
        Some(v) => match v {
            RawValue::Leaf(RawLeaf::Bool(b)) => *b,
            _ => {
                return Err(TomlErr { field: String::from_str("compare_commands") });
            },
        },
    };
    let wm: bool = match field_of(fields, "with_mem") {
        None => bwm,
        Some(v) => match v {
            RawValue::Leaf(RawLeaf::Bool(b)) => *b,
            _ => {
                return Err(TomlErr { field: String::from_str("with_mem") });
            },
        },
    };
    let iters: Option<i64> = match field_of(fields, "iterations") {
        None => biters,
        Some(v) => match v {
            RawValue::Leaf(RawLeaf::Int(i)) => Some(*i),
            _ => {
                return Err(TomlErr { field: String::from_str("iterations") });
            },
        },
    };
    let p = Profile {
        inputs: ins,
        commands: cs,
        compare_commands: cc,
        with_mem: wm,
        runtime_iterations: iters,
    };
    Ok(p)
}

fn vec_contains_str(v: &Vec<String>, name: &str) -> (r: bool)
    ensures
        r == v@.map_values(|s: String| s@).contains(name@),
{
    let ghost m = v@.map_values(|s: String| s@);
    let mut i: usize = 0;
    while i < v.len()
        invariant
            i <= v@.len(),
            m == v@.map_values(|s: String| s@),
            forall|j: int| 0 <= j < i ==> (#[trigger] v@[j])@ != name@,
        decreases v@.len() - i,
    {
        if str_eq(v[i].as_str(), name) {
            proof {
                assert(m[i as int] == name@);
            }
            return true;
        }
        i = i + 1;
    }
    proof {
        assert(forall|j: int| 0 <= j < m.len() ==> (#[trigger] m[j]) != name@);
        assert(!m.contains(name@));
    }
    false
}

/// Resolves `name` through its inheritance chain: the parent's resolution is
/// the base, the child's explicit fields overlay it. A chain that revisits a
/// name, or outlives its fuel, is the bounded cycle error.
#[verifier::opaque]
pub open spec fn resolve_spec(
    entries: Seq<RawEntry>,
    name: Seq<char>,
    visited: Seq<Seq<char>>,
    fuel: nat,
) -> Result<ProfileV, Seq<char>>
    decreases fuel,
{
    if visited.contains(name) {
        Err("inherit_from"@)
    } else {
        match lookup_spec(entries, name) {
            None => Err(name),
            Some(e) => match fields_of(e) {
                None => Err(name),
                Some(fs) => {
                    let base = match field_spec(fs, "inherit_from"@) {
                        None => Ok(default_profile_v()),
                        Some(v) => match str_of(v) {
                            None => Err("inherit_from"@),
                            Some(parent) => if fuel == 0 {
                                Err("inherit_from"@)
                            } else {
                                resolve_spec(entries, parent, visited.push(name), (fuel - 1) as nat)
                            },
                        },
                    };
                    match base {
                        Err(e2) => Err(e2),
                        Ok(bp) => overlay_spec(bp, fs),
                    }
                },
            },
        }
    }
}

/// What resolving a name out of a whole document yields.
pub open spec fn parse_profile_spec(entries: Seq<RawEntry>, name: Seq<char>) -> Result<
    ProfileV,
    Seq<char>,
> {
    resolve_spec(entries, name, Seq::empty(), entries.len())
}

fn resolve_inner(table: &RawTable, name: &str, visited: Vec<String>, fuel: usize) -> (r: Result<
    Profile,
    TomlErr,
>)
    ensures
        match r {
            Ok(p) => resolve_spec(
                table.entries@,
                name@,
                visited@.map_values(|s: String| s@),
                fuel as nat,
            ) == Ok::<ProfileV, Seq<char>>(p@),
            Err(e) => resolve_spec(
                table.entries@,
                name@,
                visited@.map_values(|s: String| s@),
                fuel as nat,
            ) == Err::<ProfileV, Seq<char>>(e.field@),
        },
    decreases fuel,
{
    proof {
        reveal_with_fuel(resolve_spec, 1);
    }
    let ghost vis = visited@.map_values(|s: String| s@);
    if vec_contains_str(&visited, name) {
        return Err(TomlErr { field: String::from_str("inherit_from") });
    }
    let e = match lookup(&table.entries, name) {
        None => {
            return Err(TomlErr { field: name.to_owned() });
        },
        Some(e) => e,
    };
    let fs = match &e.value {
        RawEntryValue::NotTable => {
            return Err(TomlErr { field: name.to_owned() });
        },
        RawEntryValue::Table(fs) => fs,
    };
    proof {
        assert(fields_of(*e) == Some(fs@));
    }
    let base: Profile = match field_of(fs, "inherit_from") {
        None => default_profile(),
        Some(v) => {
            let parent: &String = match v {
                RawValue::Leaf(l) => match l {
                    RawLeaf::Str(s) => s,
                    _ => {
                        return Err(TomlErr { field: String::from_str("inherit_from") });
                    },
                },
                _ => {
                    return Err(TomlErr { field: String::from_str("inherit_from") });
                },
            };
            if fuel == 0 {
                return Err(TomlErr { field: String::from_str("inherit_from") });
            }
            let mut vis2 = visited;
            vis2.push(name.to_owned());
            proof {
                assert(vis2@.map_values(|s: String| s@) =~= vis.push(name@));
            }
            match resolve_inner(table, parent.as_str(), vis2, fuel - 1) {
                Ok(p) => p,
                Err(e2) => {
                    return Err(e2);
                },
            }
        },
    };
    overlay(base, fs)
}

/// Resolves the named profile out of the raw table: the parent chain is
/// materialized first, then each child's explicitly present fields overlay
/// it; a cyclic `inherit_from` chain fails deterministically.
pub fn parse_profile(name: &str, table: &RawTable) -> (r: Result<Profile, TomlErr>)
    ensures
        match r {
            Ok(p) => parse_profile_spec(table.entries@, name@) == Ok::<ProfileV, Seq<char>>(p@),
            Err(e) => parse_profile_spec(table.entries@, name@) == Err::<ProfileV, Seq<char>>(
                e.field@,
            ),
        },
{
    let n = table.entries.len();
    let visited: Vec<String> = Vec::new();
    proof {
        assert(visited@.map_values(|s: String| s@) =~= Seq::<Seq<char>>::empty());
    }
    resolve_inner(table, name, visited, n)
}

/// The resolved profiles of a whole document, in document order.
#[derive(Debug)]
pub struct Config {
    pub profiles: Vec<(String, Profile)>,
}

/// Resolves every top-level entry of the document into a profile table; the
/// first entry whose resolution fails names the error.
pub fn parse_config(table: &RawTable) -> (r: Result<Config, TomlErr>)
    ensures
        match r {
            Ok(cfg) => {
                &&& cfg.profiles@.len() == table.entries@.len()
                &&& forall|i: int|
                    0 <= i < table.entries@.len() ==> (#[trigger] cfg.profiles@[i].0)@
                        == table.entries@[i].name@
                &&& forall|i: int|
                    0 <= i < table.entries@.len() ==> parse_profile_spec(
                        table.entries@,
                        table.entries@[i].name@,
                    ) == Ok::<ProfileV, Seq<char>>((#[trigger] cfg.profiles@[i].1)@)
            },
            Err(e) => exists|i: int|
                0 <= i < table.entries@.len() && parse_profile_spec(
                    table.entries@,
                    (#[trigger] table.entries@[i]).name@,
                ) == Err::<ProfileV, Seq<char>>(e.field@) && (forall|j: int|
                    0 <= j < i ==> parse_profile_spec(table.entries@, table.entries@[j].name@)
                        is Ok),
        },
{
    let mut out: Vec<(String, Profile)> = Vec::new();
    let mut i: usize = 0;
    while i < table.entries.len()
        invariant
            i <= table.entries@.len(),
            out@.len() == i,
            forall|t: int|
                0 <= t < i ==> (#[trigger] out@[t].0)@ == table.entries@[t].name@,
            forall|t: int|
                0 <= t < i ==> parse_profile_spec(table.entries@, table.entries@[t].name@)
                    == Ok::<ProfileV, Seq<char>>((#[trigger] out@[t].1)@),
            forall|t: int|
                0 <= t < i ==> parse_profile_spec(
                    table.entries@,
                    (#[trigger] table.entries@[t]).name@,
                ) is Ok,
        decreases table.entries@.len() - i,
    {
        let nm = table.entries[i].name.clone();
        match parse_profile(nm.as_str(), table) {
            Ok(p) => {
                out.push((nm, p));
            },
            Err(e) => {
                proof {
                    assert(parse_profile_spec(
                        table.entries@,
                        (table.entries@[i as int]).name@,
                    ) == Err::<ProfileV, Seq<char>>(e.field@));
                }
                return Err(e);
            },
        }
        i = i + 1;
    }
    Ok(Config { profiles: out })
}

/// The first profile of the given name, if any.
pub fn get_profile<'a>(config: &'a Config, name: &str) -> (r: Option<&'a Profile>)
    ensures
        match r {
            Some(p) => exists|i: int|
                0 <= i < config.profiles@.len() && (#[trigger] config.profiles@[i].0)@ == name@
                    && config.profiles@[i].1 == *p,
            None => forall|i: int|
                0 <= i < config.profiles@.len() ==> (#[trigger] config.profiles@[i].0)@ != name@,
        },
{
    let mut i: usize = 0;
    while i < config.profiles.len()
        invariant
            i <= config.profiles@.len(),
            forall|j: int| 0 <= j < i ==> (#[trigger] config.profiles@[j].0)@ != name@,
        decreases config.profiles@.len() - i,
    {
        if str_eq(config.profiles[i].0.as_str(), name) {
            return Some(&config.profiles[i].1);
        }
        i = i + 1;
    }
    None
}

/// Applies the command-line override after resolution: a set flag forces
/// memory instrumentation on; nothing else changes.
pub fn apply_overrides(p: Profile, with_mem_flag: bool) -> (r: Profile)
    ensures
        r@.with_mem == (p@.with_mem || with_mem_flag),
        r@.inputs == p@.inputs,
        r@.commands == p@.commands,
        r@.compare_commands == p@.compare_commands,
        r@.runtime_iterations == p@.runtime_iterations,
{
    let mut q = p;
    if with_mem_flag {
        q.with_mem = true;
    }
    q
}

/// Overlaying onto a prior result: errors pass through.
pub open spec fn overlay_result(
    r: Result<ProfileV, Seq<char>>,
    fields: Seq<RawField>,
) -> Result<ProfileV, Seq<char>> {
    match r {
        Ok(p) => overlay_spec(p, fields),
        Err(e) => Err(e),
    }
}

/// Whether an entry declares a parent.
pub open spec fn has_inherit(fields: Seq<RawField>) -> bool {
    field_spec(fields, "inherit_from"@) is Some
}

/// The parent name an entry declares, if the key holds a string.
pub open spec fn inherit_str(fields: Seq<RawField>) -> Option<Seq<char>> {
    match field_spec(fields, "inherit_from"@) {
        None => None,
        Some(v) => str_of(v),
    }
}

/// Law: what a child leaves unsaid never erases what it inherited — every
/// field absent from the overlaying entry keeps its base value.
pub proof fn lemma_overlay_keeps_absent(base: ProfileV, fields: Seq<RawField>)
    ensures
        match overlay_spec(base, fields) {
            Ok(p) => {
                &&& (field_spec(fields, "commands"@) is None ==> p.commands == base.commands)
                &&& (field_spec(fields, "inputs"@) is None ==> p.inputs == base.inputs)
                &&& (field_spec(fields, "compare_commands"@) is None ==> p.compare_commands
                    == base.compare_commands)
                &&& (field_spec(fields, "with_mem"@) is None ==> p.with_mem == base.with_mem)
                &&& (field_spec(fields, "iterations"@) is None ==> p.runtime_iterations
                    == base.runtime_iterations)
            },
            Err(_) => true,
        },
{
}

/// Law: a chain `a inherits b inherits c` resolves to the defaults overlaid
/// by `c`'s explicit fields, then `b`'s, then `a`'s.
pub proof fn lemma_inheritance_chain(
    entries: Seq<RawEntry>,
    a: Seq<char>,
    b: Seq<char>,
    c: Seq<char>,
    fa: Seq<RawField>,
    fb: Seq<RawField>,
    fc: Seq<RawField>,
    fuel: nat,
)
    requires
        a != b,
        b != c,
        a != c,
        entry_table(entries, a) == Some(fa),
        entry_table(entries, b) == Some(fb),
        entry_table(entries, c) == Some(fc),
        inherit_str(fa) == Some(b),
        inherit_str(fb) == Some(c),
        !has_inherit(fc),
        fuel >= 2,
    ensures
        resolve_spec(entries, a, Seq::empty(), fuel) == overlay_result(
            overlay_result(overlay_result(Ok(default_profile_v()), fc), fb),
            fa,
        ),
{
    reveal_with_fuel(resolve_spec, 4);
    let v0 = Seq::<Seq<char>>::empty();
    let v1 = v0.push(a);
    let v2 = v1.push(b);
    assert(forall|i: int| 0 <= i < v0.len() ==> v0[i] != a);
    assert(!v0.contains(a));
    assert(forall|i: int| 0 <= i < v1.len() ==> v1[i] != b);
    assert(!v1.contains(b));
    assert(forall|i: int| 0 <= i < v2.len() ==> v2[i] != c);
    assert(!v2.contains(c));
    assert(resolve_spec(entries, c, v2, (fuel - 2) as nat) == overlay_result(
        Ok(default_profile_v()),
        fc,
    ));
    assert(resolve_spec(entries, b, v1, (fuel - 1) as nat) == overlay_result(
        resolve_spec(entries, c, v2, (fuel - 2) as nat),
        fb,
    ));
    assert(resolve_spec(entries, a, v0, fuel) == overlay_result(
        resolve_spec(entries, b, v1, (fuel - 1) as nat),
        fa,
    ));
}

/// Law: mutual inheritance between two profiles is caught by the visited
/// set and yields the bounded cycle error, whatever the fuel.
pub proof fn lemma_cycle_detected(
    entries: Seq<RawEntry>,
    a: Seq<char>,
    b: Seq<char>,
    fa: Seq<RawField>,
    fb: Seq<RawField>,
    fuel: nat,
)
    requires
        a != b,
        entry_table(entries, a) == Some(fa),
        entry_table(entries, b) == Some(fb),
        inherit_str(fa) == Some(b),
        inherit_str(fb) == Some(a),
    ensures
        resolve_spec(entries, a, Seq::empty(), fuel) == Err::<ProfileV, Seq<char>>(
            "inherit_from"@,
        ),
{
    reveal_with_fuel(resolve_spec, 4);
    let v0 = Seq::<Seq<char>>::empty();
    let v1 = v0.push(a);
    let v2 = v1.push(b);
    assert(forall|i: int| 0 <= i < v0.len() ==> v0[i] != a);
    assert(!v0.contains(a));
    assert(forall|i: int| 0 <= i < v1.len() ==> v1[i] != b);
    assert(!v1.contains(b));
    if fuel >= 2 {
        assert(v2[0] == a);
        assert(v2.contains(a));
        assert(resolve_spec(entries, a, v2, (fuel - 2) as nat) == Err::<ProfileV, Seq<char>>(
            "inherit_from"@,
        ));
    }
}

} // verus!
