use mal::reader::read_str;
use mal::types::{eq_val, MalError, MalVal};

fn printed(v: &MalVal) -> String {
    let atoms: Vec<MalVal> = Vec::new();
    v.pr_str(true, &atoms, 8)
}

fn round_trips(src: &str) {
    let v = read_str(src).expect("first reading failed");
    let text = printed(&v);
    let w = read_str(&text).expect("second reading failed");
    assert!(eq_val(&v, &w), "round trip changed the value: {} vs {}", text, printed(&w));
    assert_eq!(text, printed(&w), "round trip changed the printed form");
}

#[test]
fn read_print_round_trip_scalars() {
    round_trips("42");
    round_trips("-7");
    round_trips("0");
    round_trips("true");
    round_trips("false");
    round_trips("nil");
    round_trips(":kw");
    round_trips("sym");
    round_trips("9223372036854775807");
    round_trips("-9223372036854775808");
}

#[test]
fn read_print_round_trip_strings() {
    round_trips("\"\"");
    round_trips("\"abc\"");
    round_trips("\"a\\\\b\"");
    round_trips("\"a\\\"b\"");
    round_trips("\"a\\nb\"");
}

#[test]
fn read_print_round_trip_containers() {
    round_trips("(1 2 3)");
    round_trips("[]");
    round_trips("[1 [2] (3)]");
    round_trips("{:a 1 \"b\" [2 {:c ()}]}");
    round_trips("(quote (1 :k \"s\" [x]))");
}

#[test]
fn tokens_split_on_whitespace_and_commas() {
    let v = read_str("(1,,2 ,3)").expect("reading failed");
    assert_eq!(printed(&v), "(1 2 3)");
}

#[test]
fn comments_are_discarded() {
    let v = read_str("(1 2 ; three\n 3)").expect("reading failed");
    assert_eq!(printed(&v), "(1 2 3)");
}

#[test]
fn reader_macros_expand() {
    assert_eq!(printed(&read_str("'x").unwrap()), "(quote x)");
    assert_eq!(printed(&read_str("`x").unwrap()), "(quasiquote x)");
    assert_eq!(printed(&read_str("~x").unwrap()), "(unquote x)");
    assert_eq!(printed(&read_str("~@x").unwrap()), "(splice-unquote x)");
    assert_eq!(printed(&read_str("@x").unwrap()), "(deref x)");
    assert_eq!(printed(&read_str("^{:a 1} [1]").unwrap()), "(with-meta [1] {:a 1})");
}

#[test]
fn numbers_with_trailing_letters_are_symbols() {
    assert_eq!(printed(&read_str("12ab").unwrap()), "12ab");
    assert_eq!(printed(&read_str("-x").unwrap()), "-x");
    assert_eq!(printed(&read_str("99999999999999999999").unwrap()), "99999999999999999999");
}

#[test]
fn unbalanced_forms_name_their_kind() {
    match read_str("(1") {
        Err(MalError::Unbalance(k)) => assert_eq!(k, "list"),
        _ => panic!("expected an unbalance"),
    }
    match read_str("[1") {
        Err(MalError::Unbalance(k)) => assert_eq!(k, "vector"),
        _ => panic!("expected an unbalance"),
    }
    match read_str("{:a 1") {
        Err(MalError::Unbalance(k)) => assert_eq!(k, "hash-map"),
        _ => panic!("expected an unbalance"),
    }
    match read_str("\"ab") {
        Err(MalError::Unbalance(k)) => assert_eq!(k, "string"),
        _ => panic!("expected an unbalance"),
    }
}

#[test]
fn dangling_reader_macros_are_errors_not_silence() {
    for src in ["'", "`", "~", "~@", "@", "^", "^{:a 1}"] {
        match read_str(src) {
            Err(MalError::Other(m)) => {
                assert_eq!(m, "a reader macro needs a form to follow", "for {src}")
            }
            _ => panic!("expected a printable error for {src}"),
        }
    }
}

#[test]
fn input_ending_inside_a_map_is_its_unbalance() {
    match read_str("{:a") {
        Err(MalError::Unbalance(k)) => assert_eq!(k, "hash-map"),
        _ => panic!("expected an unbalance"),
    }
}

#[test]
fn unicode_separators_split_tokens() {
    let v = read_str("(1\u{2003}2\u{a0}3)").expect("reading failed");
    assert_eq!(printed(&v), "(1 2 3)");
}

#[test]
fn empty_input_is_continue() {
    assert!(matches!(read_str(""), Err(MalError::Continue)));
    assert!(matches!(read_str(" ; nothing\n"), Err(MalError::Continue)));
}

#[test]
fn trailing_tokens_are_ignored() {
    let v = read_str("1 2 3").expect("reading failed");
    assert_eq!(printed(&v), "1");
}

#[test]
fn duplicate_map_keys_keep_the_last_value() {
    let v = read_str("{:a 1 :a 2}").expect("reading failed");
    assert_eq!(printed(&v), "{:a 2}");
}

#[test]
fn structural_equality_crosses_tags_directly() {
    let a = read_str("(1 2)").unwrap();
    let b = read_str("[1 2]").unwrap();
    assert!(eq_val(&a, &b));
    let c = read_str("{:a 1 :b [2 3]}").unwrap();
    let d = read_str("{:b [2 3] :a 1}").unwrap();
    assert!(eq_val(&c, &d));
    let e = read_str("{:a 1}").unwrap();
    let f = read_str("{:a 2}").unwrap();
    assert!(!eq_val(&e, &f));
}

#[test]
fn environment_set_and_get() {
    let mut env = mal::env::Env::new();
    env.set(0, "k".to_string(), MalVal::Integer(5));
    match env.get(0, &"k".to_string()) {
        Some(MalVal::Integer(5)) => {},
        _ => panic!("binding not found"),
    }
    assert!(env.get(0, &"missing".to_string()).is_none());
}

#[test]
fn inner_frames_shadow_without_disturbing_outer_ones() {
    let mut env = mal::env::Env::new();
    env.set(0, "x".to_string(), MalVal::Integer(1));
    let f = env.push_frame(0);
    env.set(f, "x".to_string(), MalVal::Integer(2));
    match env.get(f, &"x".to_string()) {
        Some(MalVal::Integer(2)) => {},
        _ => panic!("inner binding wrong"),
    }
    match env.get(0, &"x".to_string()) {
        Some(MalVal::Integer(1)) => {},
        _ => panic!("outer binding disturbed"),
    }
}

#[test]
fn variadic_binding_collects_the_tail() {
    let mut it = mal::eval::Interp::new();
    it.bootstrap(1 << 40);
    assert_eq!(
        it.rep("((fn* (a & more) (list a more)) 1 2 3)", 1 << 40),
        Some("(1 (2 3))".to_string())
    );
    assert_eq!(
        it.rep("((fn* (& more) (count more)))", 1 << 40),
        Some("0".to_string())
    );
}
