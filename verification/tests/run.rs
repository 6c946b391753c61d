use std::cell::Cell;

use bumpalo::Bump;
use gen_hash::build_hash::generic_hash;
use gen_hash::data::Data;
use gen_hash::env::Env;
use gen_hash::interp::exec_function;
use gen_hash::ir::{BasicType, FnName, Op, Value};
use gen_hash::layout::{Builtin, Layout, UnionLayout};
use gen_hash::layout_ids::LayoutIds;

const SEED: u64 = 0xc70f6907;
const FUEL: u64 = 100_000;

/// A stand-in for the byte mixer: order, content and width all matter.
fn mix_bytes(seed: u64, bytes: &Vec<u8>, width: u64) -> u64 {
    let mut h = seed ^ width.wrapping_mul(0x9e3779b97f4a7c15);
    for b in bytes.iter().take(width as usize) {
        h = (h ^ *b as u64).wrapping_mul(0x100000001b3);
    }
    h.rotate_left(17)
}

/// A stand-in for the string mixer.
fn mix_string(seed: u64, bytes: &Vec<u8>) -> u64 {
    let mut h = seed ^ 0x5555_5555_5555_5555;
    for b in bytes.iter() {
        h = (h ^ *b as u64).wrapping_mul(0x100000001b3);
    }
    h.rotate_left(29)
}

fn int64() -> Layout {
    Layout::Builtin(Builtin::Int64)
}

fn string() -> Layout {
    Layout::Builtin(Builtin::Str)
}

fn num(x: i64) -> Data {
    Data::Bytes(x.to_le_bytes().to_vec())
}

fn text(s: &str) -> Data {
    Data::Bytes(s.as_bytes().to_vec())
}

fn mix_num(seed: u64, x: i64) -> u64 {
    mix_bytes(seed, &x.to_le_bytes().to_vec(), 8)
}

/// Generates the hash procedure of `layout` in a fresh module, runs it on
/// `value` and returns the seed.
fn hash(layout: &Layout, seed: u64, value: &Data) -> Option<u64> {
    let bump = Bump::new();
    let mut env = Env::new(&bump, 8);
    let host = env.build_header_help(FnName::Other(0), BasicType::I64);
    let entry = env.append_basic_block(host);
    env.position_at_end(entry);
    let mut ids = LayoutIds::new();
    generic_hash(&mut env, &mut ids, Value::Param(0), Value::Param(1), layout);
    let callee = match env.module.functions[0].blocks[0].insts.last() {
        Some(Op::Call { callee, .. }) => *callee,
        other => panic!("the layout has no procedure: {:?}", other),
    };
    exec_function(&env.module, &mix_bytes, &mix_string, callee, seed, value, FUEL)
}

fn cons_list() -> Layout {
    Layout::Union(UnionLayout::NullableUnwrapped {
        nullable_id: true,
        other_fields: vec![int64(), Layout::RecursivePointer],
    })
}

fn cons(head: i64, tail: Data) -> Data {
    Data::Pointer(Box::new(Data::Struct(vec![num(head), tail])))
}

fn chain(items: &[i64]) -> Data {
    let mut list = Data::Null;
    for x in items.iter().rev() {
        list = cons(*x, list);
    }
    list
}

#[test]
fn cons_one_cons_two_nil_is_the_chain_of_two_mixes() {
    let value = cons(1, cons(2, Data::Null));
    let h1 = mix_num(SEED, 1);
    let h2 = mix_num(h1, 2);
    assert_eq!(hash(&cons_list(), SEED, &value), Some(h2));
    // an instance of the same shape that was built on its own
    let again = chain(&[1, 2]);
    assert_eq!(hash(&cons_list(), SEED, &again), Some(h2));
}

#[test]
fn the_empty_linked_list_leaves_the_seed() {
    assert_eq!(hash(&cons_list(), SEED, &Data::Null), Some(SEED));
    assert_eq!(hash(&cons_list(), 7, &Data::Null), Some(7));
}

#[test]
fn a_linked_list_visits_every_node_once() {
    let items: Vec<i64> = (0..200).map(|i| i * i - 50).collect();
    let value = chain(&items);
    let mut expected = SEED;
    for x in &items {
        expected = mix_num(expected, *x);
    }
    let calls = Cell::new(0usize);
    let counting = |seed: u64, bytes: &Vec<u8>, width: u64| {
        calls.set(calls.get() + 1);
        mix_bytes(seed, bytes, width)
    };
    let bump = Bump::new();
    let mut env = Env::new(&bump, 8);
    let host = env.build_header_help(FnName::Other(0), BasicType::I64);
    let entry = env.append_basic_block(host);
    env.position_at_end(entry);
    let mut ids = LayoutIds::new();
    generic_hash(&mut env, &mut ids, Value::Param(0), Value::Param(1), &cons_list());
    let got = exec_function(&env.module, &counting, &mix_string, 1, SEED, &value, FUEL);
    assert_eq!(got, Some(expected));
    assert_eq!(calls.get(), items.len());
}

#[test]
fn running_twice_gives_the_same_seed() {
    let layout = Layout::Struct(vec![int64(), string(), cons_list()]);
    let value = Data::Struct(vec![num(-3), text("abc"), chain(&[4, 5, 6])]);
    let first = hash(&layout, SEED, &value);
    let second = hash(&layout, SEED, &value);
    assert!(first.is_some());
    assert_eq!(first, second);
}

#[test]
fn more_fuel_does_not_change_the_seed() {
    let bump = Bump::new();
    let mut env = Env::new(&bump, 8);
    let host = env.build_header_help(FnName::Other(0), BasicType::I64);
    let entry = env.append_basic_block(host);
    env.position_at_end(entry);
    let mut ids = LayoutIds::new();
    generic_hash(&mut env, &mut ids, Value::Param(0), Value::Param(1), &cons_list());
    let value = chain(&[1, 2, 3]);
    // five calls and jumps for each node and three for the end
    let enough = exec_function(&env.module, &mix_bytes, &mix_string, 1, SEED, &value, 18);
    let more = exec_function(&env.module, &mix_bytes, &mix_string, 1, SEED, &value, 1000);
    assert!(enough.is_some());
    assert_eq!(enough, more);
    assert_eq!(exec_function(&env.module, &mix_bytes, &mix_string, 1, SEED, &value, 17), None);
    assert_eq!(exec_function(&env.module, &mix_bytes, &mix_string, 1, SEED, &value, 0), None);
}

#[test]
fn numbers_of_the_same_bits_and_width_hash_alike() {
    let bits = Data::Struct(vec![Data::Bytes(vec![1, 2, 3, 4, 5, 6, 7, 8])]);
    let as_int = hash(&Layout::Struct(vec![int64()]), SEED, &bits);
    let as_float = hash(&Layout::Struct(vec![Layout::Builtin(Builtin::Float64)]), SEED, &bits);
    let as_usize = hash(&Layout::Struct(vec![Layout::Builtin(Builtin::Usize)]), SEED, &bits);
    assert_eq!(as_int, Some(mix_bytes(SEED, &vec![1, 2, 3, 4, 5, 6, 7, 8], 8)));
    assert_eq!(as_int, as_float);
    assert_eq!(as_int, as_usize);
    for seed in [0, 1, u64::MAX] {
        assert_eq!(
            hash(&Layout::Struct(vec![Layout::Builtin(Builtin::Int16)]), seed, &bits),
            hash(&Layout::Struct(vec![Layout::Builtin(Builtin::Float16)]), seed, &bits)
        );
    }
    // another width is another hash
    let narrow = hash(&Layout::Struct(vec![Layout::Builtin(Builtin::Int32)]), SEED, &bits);
    assert_eq!(narrow, Some(mix_bytes(SEED, &vec![1, 2, 3, 4, 5, 6, 7, 8], 4)));
    assert_ne!(narrow, as_int);
}

#[test]
fn a_struct_is_the_fold_over_its_fields() {
    let layout = Layout::Struct(vec![int64(), string(), Layout::Builtin(Builtin::Int8)]);
    let value = Data::Struct(vec![num(10), text("hi"), Data::Bytes(vec![0xff])]);
    let h1 = mix_num(SEED, 10);
    let h2 = mix_string(h1, &b"hi".to_vec());
    let h3 = mix_bytes(h2, &vec![0xff], 1);
    assert_eq!(hash(&layout, SEED, &value), Some(h3));
}

#[test]
fn swapped_fields_of_different_content_hash_differently() {
    let layout = Layout::Struct(vec![int64(), int64()]);
    let ab = Data::Struct(vec![num(1), num(2)]);
    let ba = Data::Struct(vec![num(2), num(1)]);
    let h_ab = hash(&layout, SEED, &ab);
    let h_ba = hash(&layout, SEED, &ba);
    assert_eq!(h_ab, Some(mix_num(mix_num(SEED, 1), 2)));
    assert_eq!(h_ba, Some(mix_num(mix_num(SEED, 2), 1)));
    assert_ne!(h_ab, h_ba);
}

#[test]
fn nested_structs_are_folded_depth_first() {
    let inner = Layout::Struct(vec![int64(), int64()]);
    let layout = Layout::Struct(vec![int64(), inner, int64()]);
    let value = Data::Struct(vec![num(1), Data::Struct(vec![num(2), num(3)]), num(4)]);
    let expected = mix_num(mix_num(mix_num(mix_num(SEED, 1), 2), 3), 4);
    assert_eq!(hash(&layout, SEED, &value), Some(expected));
}

#[test]
fn empty_collections_leave_the_seed_unchanged() {
    let layout = Layout::Struct(vec![
        Layout::Builtin(Builtin::EmptyStr),
        Layout::Builtin(Builtin::EmptyList),
        Layout::Builtin(Builtin::EmptyDict),
        Layout::Builtin(Builtin::EmptySet),
    ]);
    let value = Data::Struct(vec![
        Data::Bytes(vec![]),
        Data::List(vec![]),
        Data::List(vec![]),
        Data::List(vec![]),
    ]);
    assert_eq!(hash(&layout, SEED, &value), Some(SEED));
    assert_eq!(hash(&layout, 42, &value), Some(42));
}

#[test]
fn an_empty_list_hashes_like_an_empty_collection() {
    for element in [int64(), string(), cons_list(), Layout::Struct(vec![int64()])] {
        let typed = Layout::Struct(vec![Layout::Builtin(Builtin::List(Box::new(element)))]);
        let sentinel = Layout::Struct(vec![Layout::Builtin(Builtin::EmptyList)]);
        let value = Data::Struct(vec![Data::List(vec![])]);
        assert_eq!(hash(&typed, SEED, &value), Some(SEED));
        assert_eq!(hash(&typed, SEED, &value), hash(&sentinel, SEED, &value));
    }
}

#[test]
fn a_list_is_the_fold_over_its_elements_in_index_order() {
    let layout = Layout::Builtin(Builtin::List(Box::new(int64())));
    let value = Data::List(vec![num(1), num(2), num(3)]);
    let expected = mix_num(mix_num(mix_num(SEED, 1), 2), 3);
    assert_eq!(hash(&layout, SEED, &value), Some(expected));
    assert_eq!(hash(&layout, SEED, &Data::List(vec![num(9)])), Some(mix_num(SEED, 9)));
}

#[test]
fn reordered_elements_hash_differently() {
    let layout = Layout::Builtin(Builtin::List(Box::new(int64())));
    let abc = hash(&layout, SEED, &Data::List(vec![num(1), num(2), num(3)]));
    let cab = hash(&layout, SEED, &Data::List(vec![num(3), num(1), num(2)]));
    assert!(abc.is_some() && cab.is_some());
    assert_ne!(abc, cab);
}

#[test]
fn a_list_of_strings_and_of_structs() {
    let strings = Layout::Builtin(Builtin::List(Box::new(string())));
    let value = Data::List(vec![text("a"), text("bc")]);
    let expected = mix_string(mix_string(SEED, &b"a".to_vec()), &b"bc".to_vec());
    assert_eq!(hash(&strings, SEED, &value), Some(expected));

    let pairs = Layout::Builtin(Builtin::List(Box::new(Layout::Struct(vec![int64(), int64()]))));
    let value =
        Data::List(vec![Data::Struct(vec![num(1), num(2)]), Data::Struct(vec![num(3), num(4)])]);
    let expected = mix_num(mix_num(mix_num(mix_num(SEED, 1), 2), 3), 4);
    assert_eq!(hash(&pairs, SEED, &value), Some(expected));
}

#[test]
fn a_tag_id_selects_its_own_variant() {
    // every variant starts with the slot of the tag id
    let layout = Layout::Union(UnionLayout::NonRecursive(vec![
        vec![int64(), int64()],
        vec![int64(), string()],
        vec![int64()],
    ]));
    let a = Data::Tagged(0, vec![num(0), num(77)]);
    let b = Data::Tagged(1, vec![num(1), text("x")]);
    let c = Data::Tagged(2, vec![num(2)]);
    assert_eq!(hash(&layout, SEED, &a), Some(mix_num(mix_num(SEED, 0), 77)));
    assert_eq!(hash(&layout, SEED, &b), Some(mix_string(mix_num(SEED, 1), &b"x".to_vec())));
    // the last variant is reached through the default of the switch
    assert_eq!(hash(&layout, SEED, &c), Some(mix_num(SEED, 2)));
}

#[test]
fn variants_of_the_same_content_are_told_apart_by_the_tag_id() {
    let layout = Layout::Union(UnionLayout::NonRecursive(vec![
        vec![int64(), int64()],
        vec![int64(), int64()],
        vec![int64(), int64()],
    ]));
    let seeds: Vec<Option<u64>> = (0..3)
        .map(|tag| hash(&layout, SEED, &Data::Tagged(tag, vec![num(tag as i64), num(5)])))
        .collect();
    assert!(seeds.iter().all(|s| s.is_some()));
    assert_ne!(seeds[0], seeds[1]);
    assert_ne!(seeds[1], seeds[2]);
    assert_ne!(seeds[0], seeds[2]);
}

#[test]
fn a_variant_is_not_hashed_as_another() {
    // the variant with tag id 1 holds a string: hashed as variant 0 it
    // would go to the byte mixer with width 8
    let layout = Layout::Union(UnionLayout::NonRecursive(vec![vec![int64()], vec![string()]]));
    let value = Data::Tagged(1, vec![text("12345678")]);
    assert_eq!(hash(&layout, SEED, &value), Some(mix_string(SEED, &b"12345678".to_vec())));
    assert_ne!(hash(&layout, SEED, &value), Some(mix_bytes(SEED, &b"12345678".to_vec(), 8)));
}

#[test]
fn the_null_variant_hashes_the_same_whichever_variant_is_null() {
    let tags = || vec![vec![int64(), int64()], vec![int64()]];
    for nullable_id in [0, 1, 2] {
        let layout =
            Layout::Union(UnionLayout::NullableWrapped { nullable_id, other_tags: tags() });
        assert_eq!(hash(&layout, SEED, &Data::Null), Some(SEED));
        assert_eq!(hash(&layout, 12345, &Data::Null), Some(12345));
    }
    for nullable_id in [false, true] {
        let layout = Layout::Union(UnionLayout::NullableUnwrapped {
            nullable_id,
            other_fields: vec![int64(), string()],
        });
        assert_eq!(hash(&layout, SEED, &Data::Null), Some(SEED));
    }
}

#[test]
fn a_nullable_wrapped_union_reads_the_tag_id_behind_the_pointer() {
    let layout = Layout::Union(UnionLayout::NullableWrapped {
        nullable_id: 0,
        other_tags: vec![vec![int64(), int64()], vec![int64(), string(), Layout::RecursivePointer]],
    });
    let leaf = Data::Pointer(Box::new(Data::Tagged(0, vec![num(0), num(8)])));
    assert_eq!(hash(&layout, SEED, &leaf), Some(mix_num(mix_num(SEED, 0), 8)));
    let node = Data::Pointer(Box::new(Data::Tagged(
        1,
        vec![num(1), text("n"), Data::Pointer(Box::new(Data::Tagged(0, vec![num(0), num(8)])))],
    )));
    let expected = mix_num(mix_num(mix_string(mix_num(SEED, 1), &b"n".to_vec()), 0), 8);
    assert_eq!(hash(&layout, SEED, &node), Some(expected));
    let ends_in_null = Data::Pointer(Box::new(Data::Tagged(1, vec![num(1), text("n"), Data::Null])));
    assert_eq!(
        hash(&layout, SEED, &ends_in_null),
        Some(mix_string(mix_num(SEED, 1), &b"n".to_vec()))
    );
}

#[test]
fn a_recursive_union_of_trees() {
    // Leaf(Int) | Node(tree, tree), each variant with its tag id's slot
    let layout = Layout::Union(UnionLayout::Recursive(vec![
        vec![int64(), int64()],
        vec![int64(), Layout::RecursivePointer, Layout::RecursivePointer],
    ]));
    let leaf = |x: i64| Data::Pointer(Box::new(Data::Tagged(0, vec![num(0), num(x)])));
    let node = |l: Data, r: Data| Data::Pointer(Box::new(Data::Tagged(1, vec![num(1), l, r])));
    let tree = node(node(leaf(1), leaf(2)), leaf(3));
    let leaf_hash = |seed: u64, x: i64| mix_num(mix_num(seed, 0), x);
    let mut expected = mix_num(SEED, 1);
    expected = mix_num(expected, 1);
    expected = leaf_hash(expected, 1);
    expected = leaf_hash(expected, 2);
    expected = leaf_hash(expected, 3);
    assert_eq!(hash(&layout, SEED, &tree), Some(expected));
}

#[test]
fn a_pointer_that_is_never_null_is_followed() {
    let layout = Layout::Union(UnionLayout::NonNullableUnwrapped(vec![int64(), string()]));
    let value = Data::Pointer(Box::new(Data::Struct(vec![num(6), text("six")])));
    assert_eq!(
        hash(&layout, SEED, &value),
        Some(mix_string(mix_num(SEED, 6), &b"six".to_vec()))
    );
    // a null pointer here is a fault of whoever built the value
    assert_eq!(hash(&layout, SEED, &Data::Null), None);
}

#[test]
fn a_value_of_another_shape_does_not_run() {
    let layout = Layout::Struct(vec![int64(), int64()]);
    assert_eq!(hash(&layout, SEED, &Data::Struct(vec![num(1)])), None);
    assert_eq!(hash(&layout, SEED, &num(1)), None);
    assert_eq!(hash(&layout, SEED, &Data::Struct(vec![num(1), Data::Null])), None);
    let union_layout = Layout::Union(UnionLayout::Recursive(vec![vec![int64()]]));
    assert_eq!(hash(&union_layout, SEED, &Data::Null), None);
}

#[test]
fn a_procedure_that_is_not_there_does_not_run() {
    let bump = Bump::new();
    let env = Env::new(&bump, 8);
    assert_eq!(exec_function(&env.module, &mix_bytes, &mix_string, 3, SEED, &Data::Null, FUEL), None);
}

fn by_the_rules(layout: &Layout, seed: u64, value: &Data) -> Option<u64> {
    gen_hash::meaning::hash_data(
        &mix_bytes,
        &mix_string,
        8,
        layout,
        gen_hash::build_hash::WhenRecursive::Unreachable,
        seed,
        value,
    )
}

#[test]
fn the_rules_give_the_chain_for_cons_one_cons_two_nil() {
    let value = cons(1, cons(2, Data::Null));
    assert_eq!(by_the_rules(&cons_list(), SEED, &value), Some(mix_num(mix_num(SEED, 1), 2)));
    assert_eq!(by_the_rules(&cons_list(), SEED, &Data::Null), Some(SEED));
}

#[test]
fn the_rules_reject_what_is_not_a_value_of_the_layout() {
    assert_eq!(by_the_rules(&int64(), SEED, &Data::Null), None);
    assert_eq!(by_the_rules(&Layout::Struct(vec![int64()]), SEED, &Data::Struct(vec![])), None);
    assert_eq!(by_the_rules(&Layout::RecursivePointer, SEED, &Data::Null), None);
    assert_eq!(by_the_rules(&Layout::Closure, SEED, &Data::Null), None);
    assert_eq!(by_the_rules(&Layout::Builtin(Builtin::Dict), SEED, &Data::List(vec![])), None);
    let union_layout = Layout::Union(UnionLayout::NonRecursive(vec![vec![int64()]]));
    assert_eq!(by_the_rules(&union_layout, SEED, &Data::Tagged(1, vec![num(1)])), None);
    assert_eq!(by_the_rules(&union_layout, SEED, &Data::Tagged(0, vec![num(1)])), Some(mix_num(SEED, 1)));
}

#[test]
fn the_emitted_code_computes_what_the_rules_say() {
    let tree = Layout::Union(UnionLayout::Recursive(vec![
        vec![int64(), int64()],
        vec![int64(), Layout::RecursivePointer, Layout::RecursivePointer],
    ]));
    let leaf = |x: i64| Data::Pointer(Box::new(Data::Tagged(0, vec![num(0), num(x)])));
    let node = |l: Data, r: Data| Data::Pointer(Box::new(Data::Tagged(1, vec![num(1), l, r])));
    let rose = Layout::Union(UnionLayout::NonNullableUnwrapped(vec![
        string(),
        Layout::Builtin(Builtin::List(Box::new(Layout::RecursivePointer))),
    ]));
    let rose_node = |name: &str, children: Vec<Data>| {
        Data::Pointer(Box::new(Data::Struct(vec![text(name), Data::List(children)])))
    };
    let option = Layout::Union(UnionLayout::NonRecursive(vec![
        vec![int64()],
        vec![int64(), Layout::Struct(vec![string(), Layout::Builtin(Builtin::Float32)])],
    ]));
    let cases: Vec<(Layout, Data)> = vec![
        (Layout::Struct(vec![]), Data::Struct(vec![])),
        (
            Layout::Struct(vec![int64(), string(), Layout::Builtin(Builtin::EmptySet)]),
            Data::Struct(vec![num(5), text("five"), Data::List(vec![])]),
        ),
        (cons_list(), chain(&[])),
        (cons_list(), chain(&[3, 1, 4, 1, 5, 9, 2, 6])),
        (
            Layout::Builtin(Builtin::List(Box::new(cons_list()))),
            Data::List(vec![chain(&[1, 2]), chain(&[]), chain(&[3])]),
        ),
        (tree, node(node(leaf(1), node(leaf(2), leaf(3))), leaf(4))),
        (
            rose,
            rose_node(
                "root",
                vec![rose_node("a", vec![]), rose_node("b", vec![rose_node("c", vec![])])],
            ),
        ),
        (option.clone(), Data::Tagged(0, vec![num(0)])),
        (
            option,
            Data::Tagged(1, vec![num(1), Data::Struct(vec![text("x"), Data::Bytes(vec![1, 2, 3, 4])])]),
        ),
        (
            Layout::Union(UnionLayout::NullableWrapped {
                nullable_id: 1,
                other_tags: vec![vec![int64(), Layout::RecursivePointer], vec![int64(), string()]],
            }),
            Data::Pointer(Box::new(Data::Tagged(
                0,
                vec![num(0), Data::Pointer(Box::new(Data::Tagged(1, vec![num(1), text("end")])))],
            ))),
        ),
    ];
    for (layout, value) in &cases {
        for seed in [SEED, 0, u64::MAX] {
            let expected = by_the_rules(layout, seed, value);
            assert!(expected.is_some(), "{:?} is a value of {:?}", value, layout);
            assert_eq!(hash(layout, seed, value), expected, "for {:?}", layout);
        }
    }
}

#[test]
fn a_struct_of_two_recursive_unions_is_linked_to_the_first() {
    // both unions have the node `{ Int64, recursive pointer }`; its
    // procedure is generated once, for the union that is hashed first
    let list = cons_list();
    let other = Layout::Union(UnionLayout::Recursive(vec![
        vec![int64(), Layout::RecursivePointer],
        vec![int64()],
    ]));
    let bump = Bump::new();
    let mut env = Env::new(&bump, 8);
    let host = env.build_header_help(FnName::Other(0), BasicType::I64);
    let entry = env.append_basic_block(host);
    env.position_at_end(entry);
    let mut ids = LayoutIds::new();
    generic_hash(&mut env, &mut ids, Value::Param(0), Value::Param(1), &list);
    let before = env.module.functions.len();
    generic_hash(&mut env, &mut ids, Value::Param(0), Value::Param(1), &other);
    // only the other union's procedure and that of its second variant are new
    assert_eq!(env.module.functions.len(), before + 2);
    let other_proc = match env.module.functions[0].blocks[0].insts[1] {
        Op::Call { callee, .. } => callee,
        _ => unreachable!(),
    };
    let node_proc = match env.module.functions[other_proc].blocks[2].insts[2] {
        Op::Call { callee, .. } => callee,
        _ => unreachable!(),
    };
    // the node hands its pointer to the list's procedure, not to the other union's
    assert_eq!(
        env.module.functions[node_proc].blocks[0].insts[7],
        Op::Call {
            callee: 1,
            seed: Value::Inst { block: 0, index: 4 },
            value: Value::Inst { block: 0, index: 6 }
        }
    );
    assert_ne!(other_proc, 1);
    // a value without a pointer to follow is hashed as the rules say
    let single = Data::Pointer(Box::new(Data::Tagged(1, vec![num(7)])));
    assert_eq!(
        exec_function(&env.module, &mix_bytes, &mix_string, other_proc, SEED, &single, FUEL),
        by_the_rules(&other, SEED, &single)
    );
}

#[test]
fn every_field_behind_a_nullable_pointer_is_hashed() {
    let layout = Layout::Union(UnionLayout::NullableUnwrapped {
        nullable_id: false,
        other_fields: vec![string(), int64()],
    });
    let value = Data::Pointer(Box::new(Data::Struct(vec![text("head"), num(9)])));
    let expected = mix_num(mix_string(SEED, &b"head".to_vec()), 9);
    assert_eq!(hash(&layout, SEED, &value), Some(expected));
    assert_eq!(by_the_rules(&layout, SEED, &value), Some(expected));
    // the first field takes part like every other
    let other = Data::Pointer(Box::new(Data::Struct(vec![text("tail"), num(9)])));
    assert_ne!(hash(&layout, SEED, &other), Some(expected));
    // a value that lacks a field is not a value of the layout
    let short = Data::Pointer(Box::new(Data::Struct(vec![num(9)])));
    assert_eq!(hash(&layout, SEED, &short), None);
}

#[test]
fn a_nullable_pointer_to_a_variant_without_fields_leaves_the_seed() {
    let layout = Layout::Union(UnionLayout::NullableUnwrapped {
        nullable_id: true,
        other_fields: vec![],
    });
    let value = Data::Pointer(Box::new(Data::Struct(vec![])));
    assert_eq!(hash(&layout, SEED, &value), Some(SEED));
    assert_eq!(hash(&layout, SEED, &Data::Null), Some(SEED));
    assert_eq!(by_the_rules(&layout, SEED, &value), Some(SEED));
}
