use mal::eval::Interp;

const FUEL: u64 = 1 << 40;

fn fresh() -> Interp {
    let mut it = Interp::new();
    it.bootstrap(FUEL);
    it
}

fn rep1(it: &mut Interp, src: &str) -> Option<String> {
    it.rep(src, FUEL)
}

fn run(src: &str) -> String {
    let mut it = fresh();
    rep1(&mut it, src).expect("expected a printed result")
}

#[test]
fn arithmetic_nested() {
    assert_eq!(run("(+ 1 (* 2 3))"), "7");
}

#[test]
fn arithmetic_division_truncates() {
    assert_eq!(run("(/ 7 2)"), "3");
    assert_eq!(run("(/ -7 2)"), "-3");
}

#[test]
fn division_by_zero_is_an_error() {
    assert_eq!(run("(/ 1 0)"), "divide by zero");
}

#[test]
fn factorial_five() {
    let mut it = fresh();
    rep1(&mut it, "(def! fact (fn* (n) (if (<= n 1) 1 (* n (fact (- n 1))))))");
    assert_eq!(rep1(&mut it, "(fact 5)"), Some("120".to_string()));
}

#[test]
fn atom_swap_accumulates() {
    assert_eq!(
        run("(let* (a (atom 0)) (do (swap! a (fn* (x) (+ x 1))) (swap! a (fn* (x) (+ x 10))) (deref a)))"),
        "11"
    );
}

#[test]
fn swap_with_a_primitive_applies_it() {
    assert_eq!(run("(let* (a (atom 1)) (do (swap! a + 41) (deref a)))"), "42");
}

#[test]
fn cond_picks_the_first_true_clause() {
    assert_eq!(run("(cond false 1 false 2 true 3)"), "3");
}

#[test]
fn cond_with_no_true_clause_is_nil() {
    assert_eq!(run("(cond false 1)"), "nil");
}

#[test]
fn quasiquote_with_unquote_and_splice() {
    assert_eq!(run("`(a ~(+ 1 2) ~@(list :x :y))"), "(a 3 :x :y)");
}

#[test]
fn quasiquote_inserts_value() {
    assert_eq!(run("`(1 ~(+ 1 1) 3)"), "(1 2 3)");
}

#[test]
fn quasiquote_splices_list() {
    assert_eq!(run("`(1 ~@(list 2 3) 4)"), "(1 2 3 4)");
}

#[test]
fn quasiquoted_vector_evaluates_to_vector() {
    let mut it = fresh();
    rep1(&mut it, "(def! a 7)");
    assert_eq!(rep1(&mut it, "`[1 ~a]"), Some("[1 7]".to_string()));
    assert_eq!(rep1(&mut it, "(vector? `[1 ~a])"), Some("true".to_string()));
}

#[test]
fn nth_out_of_bounds_prints_and_repl_continues() {
    let mut it = fresh();
    assert_eq!(
        rep1(&mut it, "(nth (list 1 2 3) 7)"),
        Some("Eexception \"out of bounds\"".to_string())
    );
    assert_eq!(rep1(&mut it, "(+ 1 1)"), Some("2".to_string()));
}

#[test]
fn empty_input_prints_nothing() {
    let mut it = fresh();
    assert_eq!(rep1(&mut it, ""), None);
    assert_eq!(rep1(&mut it, "   ,,, ; only a comment"), None);
}

#[test]
fn dangling_quote_prints_an_error() {
    let mut it = fresh();
    assert_eq!(
        rep1(&mut it, "'"),
        Some("a reader macro needs a form to follow".to_string())
    );
    assert_eq!(rep1(&mut it, "(+ 1 1)"), Some("2".to_string()));
}

#[test]
fn unbalanced_input_is_eof() {
    assert_eq!(run("(1 2"), "EOF");
    assert_eq!(run("\"abc"), "EOF");
}

#[test]
fn def_binds_thereafter() {
    let mut it = fresh();
    assert_eq!(rep1(&mut it, "(def! x 3)"), Some("3".to_string()));
    assert_eq!(rep1(&mut it, "x"), Some("3".to_string()));
}

#[test]
fn let_shadowing_restores_outer_binding() {
    let mut it = fresh();
    rep1(&mut it, "(def! x 3)");
    assert_eq!(rep1(&mut it, "(let* (x 5) x)"), Some("5".to_string()));
    assert_eq!(rep1(&mut it, "x"), Some("3".to_string()));
}

#[test]
fn closures_capture_lexically() {
    assert_eq!(
        run("(let* (x 1) (let* (f (fn* () x)) (let* (x 2) (f))))"),
        "1"
    );
}

#[test]
fn tail_recursion_runs_deep() {
    let mut it = fresh();
    rep1(&mut it, "(def! f (fn* (n) (if (= n 0) :done (f (- n 1)))))");
    assert_eq!(rep1(&mut it, "(f 100000)"), Some(":done".to_string()));
}

#[test]
fn macro_arguments_are_not_evaluated() {
    let mut it = fresh();
    rep1(&mut it, "(defmacro! m (fn* (a) 42))");
    assert_eq!(rep1(&mut it, "(m (/ 1 0))"), Some("42".to_string()));
}

#[test]
fn macroexpand_shows_the_expansion() {
    let mut it = fresh();
    rep1(&mut it, "(defmacro! twice (fn* (e) (list 'do e e)))");
    assert_eq!(
        rep1(&mut it, "(macroexpand (twice (prn 1)))"),
        Some("(do (prn 1) (prn 1))".to_string())
    );
}

#[test]
fn count_first_rest_laws() {
    assert_eq!(run("(count (list 1 2 3))"), "3");
    assert_eq!(run("(count nil)"), "0");
    assert_eq!(run("(first (list))"), "nil");
    assert_eq!(run("(first [9 8])"), "9");
    assert_eq!(run("(rest [1 2 3])"), "(2 3)");
    assert_eq!(run("(list? (rest [1 2 3]))"), "true");
    assert_eq!(run("(rest nil)"), "()");
}

#[test]
fn list_and_vector_compare_equal() {
    assert_eq!(run("(= (list 1 2) (vector 1 2))"), "true");
    assert_eq!(run("(= (list 1 2) (list 1 3))"), "false");
}

#[test]
fn hash_map_equality_ignores_insertion_order() {
    assert_eq!(run("(= {:a 1 :b 2} {:b 2 :a 1})"), "true");
    assert_eq!(run("(= {:a 1} {\"a\" 1})"), "false");
}

#[test]
fn metadata_is_not_part_of_equality() {
    assert_eq!(run("(= (with-meta [1] {:a 1}) [1])"), "true");
}

#[test]
fn meta_round_trip() {
    assert_eq!(run("(meta (with-meta [1] {:a 1}))"), "{:a 1}");
    assert_eq!(run("(meta [1])"), "nil");
}

#[test]
fn hash_map_operations() {
    assert_eq!(run("(get (assoc {:a 1} :b 2) :b)"), "2");
    assert_eq!(run("(get (dissoc {:a 1 :b 2} :a) :a)"), "nil");
    assert_eq!(run("(contains? {:a 1} :a)"), "true");
    assert_eq!(run("(contains? {:a 1} :b)"), "false");
    assert_eq!(run("(keys {:a 1})"), "(:a)");
    assert_eq!(run("(vals {:a 1})"), "(1)");
    assert_eq!(run("(get nil :a)"), "nil");
}

#[test]
fn string_and_keyword_keys_are_distinct() {
    assert_eq!(run("(get {\"a\" 1} :a)"), "nil");
    assert_eq!(run("(get {\"a\" 1} \"a\")"), "1");
}

#[test]
fn conj_front_for_lists_back_for_vectors() {
    assert_eq!(run("(conj (list 1 2) 3 4)"), "(4 3 1 2)");
    assert_eq!(run("(conj [1 2] 3 4)"), "[1 2 3 4]");
}

#[test]
fn seq_views() {
    assert_eq!(run("(seq (list))"), "nil");
    assert_eq!(run("(seq [1 2])"), "(1 2)");
    assert_eq!(run("(seq \"ab\")"), "(\"a\" \"b\")");
    assert_eq!(run("(seq nil)"), "nil");
}

#[test]
fn apply_and_map() {
    assert_eq!(run("(apply + 1 (list 2))"), "3");
    assert_eq!(run("(map (fn* (x) (* x x)) [1 2 3])"), "(1 4 9)");
}

#[test]
fn prn_buffers_one_readable_line() {
    let mut it = fresh();
    assert_eq!(rep1(&mut it, "(prn 1 \"a\\nb\")"), Some("nil".to_string()));
    assert_eq!(it.out.len(), 1);
    assert_eq!(it.out[0], "1 \"a\\nb\"");
}

#[test]
fn println_buffers_plainly() {
    let mut it = fresh();
    rep1(&mut it, "(println 1 \"a\\nb\")");
    assert_eq!(it.out.len(), 1);
    assert_eq!(it.out[0], "1 a\nb");
}

#[test]
fn str_concatenates_plainly() {
    assert_eq!(run("(str 1 \"x\" :k)"), "\"1x:k\"");
    assert_eq!(run("(pr-str \"x\")"), "\"\\\"x\\\"\"");
}

#[test]
fn atoms_print_their_content() {
    assert_eq!(run("(atom 5)"), "(atom 5)");
    assert_eq!(run("(let* (a (atom 0)) (do (reset! a [1 2]) a))"), "(atom [1 2])");
}

#[test]
fn predicates() {
    assert_eq!(run("(symbol? 'x)"), "true");
    assert_eq!(run("(keyword? :x)"), "true");
    assert_eq!(run("(keyword \"x\")"), ":x");
    assert_eq!(run("(symbol \"x\")"), "x");
    assert_eq!(run("(string? \"x\")"), "true");
    assert_eq!(run("(number? 3)"), "true");
    assert_eq!(run("(fn? +)"), "true");
    assert_eq!(run("(nil? nil)"), "true");
    assert_eq!(run("(true? true)"), "true");
    assert_eq!(run("(false? false)"), "true");
    assert_eq!(run("(sequential? [1])"), "true");
    assert_eq!(run("(map? {})"), "true");
}

#[test]
fn bootstrap_definitions_are_bound() {
    let mut it = fresh();
    assert_eq!(rep1(&mut it, "(fn? not)"), Some("true".to_string()));
    assert_eq!(rep1(&mut it, "(fn? load-file)"), Some("true".to_string()));
    assert_eq!(rep1(&mut it, "(macro? cond)"), Some("true".to_string()));
    assert_eq!(rep1(&mut it, "(not false)"), Some("true".to_string()));
    assert_eq!(rep1(&mut it, "(not 1)"), Some("false".to_string()));
}

#[test]
fn macro_predicate() {
    let mut it = fresh();
    rep1(&mut it, "(defmacro! m (fn* (a) a))");
    assert_eq!(rep1(&mut it, "(macro? m)"), Some("true".to_string()));
    assert_eq!(rep1(&mut it, "(fn? m)"), Some("false".to_string()));
}

#[test]
fn unknown_symbol_message() {
    assert_eq!(run("nosuch"), "'nosuch' not found.");
}

#[test]
fn eval_runs_in_the_top_level_environment() {
    let mut it = fresh();
    rep1(&mut it, "(def! x 7)");
    assert_eq!(
        rep1(&mut it, "(let* (x 1) (eval (read-string \"x\")))"),
        Some("7".to_string())
    );
}

#[test]
fn throw_carries_a_value() {
    assert_eq!(run("(throw {:k 1})"), "Eexception {:k 1}");
}

#[test]
fn integer_overflow_is_an_error() {
    assert_eq!(run("(+ 9223372036854775807 1)"), "integer overflow");
}

#[test]
fn let_bindings_see_earlier_ones() {
    assert_eq!(run("(let* (a 1 b (+ a 1)) b)"), "2");
}

#[test]
fn vector_parameter_lists_work() {
    assert_eq!(run("((fn* [a b] (+ a b)) 1 2)"), "3");
}

#[test]
fn functions_carry_metadata() {
    assert_eq!(run("(meta (with-meta (fn* (a) a) {:m 1}))"), "{:m 1}");
    assert_eq!(run("(fn? (with-meta (fn* (a) a) {:m 1}))"), "true");
}

#[test]
fn quasiquoteexpand_shows_the_rewrite() {
    assert_eq!(run("(quasiquoteexpand x)"), "(quote x)");
    assert_eq!(run("(quasiquoteexpand (1 ~a))"), "(cons 1 (cons a ()))");
    assert_eq!(run("(quasiquoteexpand (~@xs))"), "(concat xs ())");
}

#[test]
fn malformed_special_forms_are_errors_not_crashes() {
    let mut it = fresh();
    assert_eq!(rep1(&mut it, "(def!)"), Some("malformed special form".to_string()));
    assert_eq!(rep1(&mut it, "(fn* 1 2)"), Some("malformed special form".to_string()));
    assert_eq!(rep1(&mut it, "(let* (x) x)"), Some("malformed special form".to_string()));
    assert_eq!(rep1(&mut it, "(+ 1 1)"), Some("2".to_string()));
}

#[test]
fn applying_a_non_function_is_an_error() {
    assert_eq!(run("(1 2)"), "not a function");
}

#[test]
fn primitives_reject_bad_arguments() {
    assert_eq!(run("(+ 1 \"a\")"), "wrong arguments to a primitive");
    assert_eq!(run("(hash-map 1 2)"), "wrong arguments to a primitive");
    assert_eq!(run("{1 2}"), "only strings and keywords can be hash-map keys");
}

#[test]
fn do_evaluates_in_order_and_returns_the_last() {
    let mut it = fresh();
    assert_eq!(
        rep1(&mut it, "(do (prn 1) (prn 2) 3)"),
        Some("3".to_string())
    );
    assert_eq!(it.out, vec!["1".to_string(), "2".to_string()]);
}

#[test]
fn if_without_else_is_nil() {
    assert_eq!(run("(if false 1)"), "nil");
    assert_eq!(run("(if nil 1 2)"), "2");
    assert_eq!(run("(if 0 1 2)"), "1");
}
