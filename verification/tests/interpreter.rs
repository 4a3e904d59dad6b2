use std::cell::RefCell;
use std::rc::Rc;
use std::sync::Arc;

use lenar::eval::{run_spawned, Runtime};
use lenar::parser::Parser;
use lenar::scope::Scope;
use lenar::value::{
    is_equal, CellStore, FunctionHandle, InstanceHandle, LenarError, LenarResult, LenarValue,
    RuntimeHost,
};

/// A deterministic host for the tests: output goes to a shared buffer, and
/// a spawned task runs when it is joined.
struct TestHost {
    output: Rc<RefCell<Vec<u8>>>,
    parser: Option<Arc<Parser>>,
    tasks: Rc<RefCell<Vec<Option<(Vec<u8>, Vec<LenarValue>)>>>>,
    host_fn_calls: Rc<RefCell<usize>>,
}

impl TestHost {
    fn new() -> TestHost {
        TestHost {
            output: Rc::new(RefCell::new(Vec::new())),
            parser: None,
            tasks: Rc::new(RefCell::new(Vec::new())),
            host_fn_calls: Rc::new(RefCell::new(0)),
        }
    }

    fn printed(&self) -> String {
        String::from_utf8(self.output.borrow().clone()).unwrap()
    }
}

impl RuntimeHost for TestHost {
    fn write_out(&mut self, bytes: &Vec<u8>) {
        self.output.borrow_mut().extend_from_slice(bytes);
    }

    fn sleep_ms(&mut self, _ms: usize) {}

    fn spawn_task(&mut self, fn_name: &Vec<u8>, arguments: Vec<LenarValue>) -> usize {
        let mut tasks = self.tasks.borrow_mut();
        tasks.push(Some((fn_name.clone(), arguments)));
        tasks.len() - 1
    }

    fn join_task(&mut self, handle: usize) -> bool {
        let task = {
            let mut tasks = self.tasks.borrow_mut();
            if handle < tasks.len() { tasks[handle].take() } else { None }
        };
        match (task, &self.parser) {
            (Some((name, args)), Some(parser)) => {
                let parser = parser.clone();
                let mut child = TestHost {
                    output: self.output.clone(),
                    parser: Some(parser.clone()),
                    tasks: self.tasks.clone(),
                    host_fn_calls: self.host_fn_calls.clone(),
                };
                run_spawned(&parser, &name, args, &mut child).is_ok()
            }
            _ => false,
        }
    }

    fn open_file(&mut self, _path: &Vec<u8>) -> Option<usize> {
        None
    }

    fn read_to_end(&mut self, _rid: usize) -> Option<Vec<u8>> {
        None
    }

    fn call_host_function(
        &mut self,
        name: &Vec<u8>,
        _args: Vec<LenarValue>,
    ) -> LenarResult<LenarValue> {
        *self.host_fn_calls.borrow_mut() += 1;
        if name.as_slice() == b"answer" {
            Ok(LenarValue::Usize(42))
        } else {
            Err(LenarError::WrongValue("unknown host function".to_string()))
        }
    }

    fn host_prop(&mut self, _instance: &Vec<u8>, _prop: &Vec<u8>) -> LenarValue {
        LenarValue::Void
    }
}

/// Run a program in a fresh interpreter and return (result, printed output).
fn run_program(code: &str) -> (LenarResult<LenarValue>, String) {
    let parser = Parser::new(code).wrap();
    let mut host = TestHost::new();
    host.parser = Some(parser.clone());
    let result = Runtime::evaluate(&parser, &mut host);
    let printed = host.printed();
    (result, printed)
}

#[test]
fn prints_a_string() {
    let (result, printed) = run_program("println(\"hi\");");
    assert!(result.is_ok());
    assert_eq!(printed, "hi\n");
}

#[test]
fn prints_a_number() {
    let (result, printed) = run_program("println(1205);");
    assert!(result.is_ok());
    assert_eq!(printed, "1205\n");
}

#[test]
fn shadowing_restores_outer_binding() {
    let code = "let a = \"1\"; { let a = \"2\"; println(a); } println(a);";
    let (result, printed) = run_program(code);
    assert!(result.is_ok());
    assert_eq!(printed, "2\n1\n");
}

#[test]
fn closure_sees_captured_names_only() {
    let code = "let a = \"x\"; let b = \"y\"; let f = fn(v) [a] { println(a); println(b); }; f(\"z\");";
    let (result, printed) = run_program(code);
    // `a` is captured and prints; `b` is not captured, so resolving it fails
    assert_eq!(printed, "x\n");
    match result {
        Err(LenarError::VariableNotFound(name)) => assert_eq!(name, b"b".to_vec()),
        other => panic!("expected a missing-variable error, got {:?}", other.is_ok()),
    }
}

#[test]
fn closure_parameters_bind_in_order() {
    let code = "let f = fn(x y) [] { print(y); print(x); }; f(\"1\" \"2\");";
    let (result, printed) = run_program(code);
    assert!(result.is_ok());
    assert_eq!(printed, "21");
}

#[test]
fn is_equal_structural_and_handles() {
    let a = LenarValue::Usize(7);
    let b = LenarValue::Usize(7);
    assert!(is_equal(&a, &b));
    assert!(is_equal(&a, &a));
    let s1 = LenarValue::Str("abc".to_string());
    let s2 = LenarValue::Str("abc".to_string());
    assert!(is_equal(&s1, &s2));
    let l1 = LenarValue::List(vec![LenarValue::Usize(1), LenarValue::Bool(true)]);
    let l2 = LenarValue::List(vec![LenarValue::Usize(1), LenarValue::Bool(true)]);
    assert!(is_equal(&l1, &l2));
    assert!(is_equal(&LenarValue::Void, &LenarValue::Void));
    assert!(!is_equal(&a, &s1));
    // a function handle is never equal, not even to itself
    let f = LenarValue::Function(FunctionHandle::Host(b"f".to_vec()));
    assert!(!is_equal(&f, &f));
    let inst = LenarValue::Instance(InstanceHandle::Lenar);
    assert!(!is_equal(&inst, &inst));
}

#[test]
fn is_equal_in_programs() {
    let (result, printed) = run_program("println(isEqual(2 2)); println(isEqual(2 3));");
    assert!(result.is_ok());
    assert_eq!(printed, "true\nfalse\n");
}

#[test]
fn result_tags_ok_and_err() {
    let (result, printed) = run_program(
        "println(isOk(Ok(\"v\"))); println(isOk(Err(\"v\"))); println(unwrap(Ok(\"v\"))); println(unwrapErr(Err(\"w\")));",
    );
    assert!(result.is_ok());
    assert_eq!(printed, "true\nfalse\nv\nw\n");
}

#[test]
fn unwrap_of_err_is_a_typed_error() {
    let (result, printed) = run_program("unwrap(Err(\"boom\"));");
    assert_eq!(printed, "");
    match result {
        Err(LenarError::WrongValue(tag)) => assert_eq!(tag, "Ok"),
        _ => panic!("expected a wrong-value error"),
    }
}

#[test]
fn unwrap_err_of_ok_is_a_typed_error() {
    let (result, _printed) = run_program("unwrapErr(Ok(\"fine\"));");
    match result {
        Err(LenarError::WrongValue(tag)) => assert_eq!(tag, "Err"),
        _ => panic!("expected a wrong-value error"),
    }
}

#[test]
fn ref_add_accumulates_and_is_shared() {
    let code = "let r = ref(0); println(add(r 5)); println(add(r 5)); println(r);";
    let (result, printed) = run_program(code);
    assert!(result.is_ok());
    assert_eq!(printed, "5\n10\n10\n");
}

#[test]
fn ref_mutation_visible_through_all_holders() {
    let code = "let r = ref(1); let s = fn(x) [r] { add(r 9); }; s(0); println(r);";
    let (result, printed) = run_program(code);
    assert!(result.is_ok());
    // the closure captured the same cell, so its mutation shows through `r`
    assert_eq!(printed, "10\n");
}

#[test]
fn thread_output_lands_before_wait_returns() {
    let code = "let h = thread(fn(v) [] { print(v); } \"hello\"); wait(h); print(\"after\");";
    let (result, printed) = run_program(code);
    assert!(result.is_ok());
    assert_eq!(printed, "helloafter");
}

#[test]
fn iter_list_in_index_order() {
    let code = "iter(list(\"a\" \"b\" \"c\") fn(e i) [] { print(e); print(i); });";
    let (result, printed) = run_program(code);
    assert!(result.is_ok());
    assert_eq!(printed, "a0b1c2");
}

#[test]
fn lenar_version_property() {
    let (result, printed) = run_program("println(Lenar.version);");
    assert!(result.is_ok());
    assert_eq!(printed, "1.0.0\n");
}

#[test]
fn conditional_runs_only_on_true() {
    let code = "if(isEqual(1 1)) { println(\"yes\"); } if(isEqual(1 2)) { println(\"no\"); }";
    let (result, printed) = run_program(code);
    assert!(result.is_ok());
    assert_eq!(printed, "yes\n");
}

#[test]
fn unknown_function_is_reported() {
    let (result, _printed) = run_program("missing(1);");
    match result {
        Err(LenarError::FunctionNotFound(name)) => assert_eq!(name, b"missing".to_vec()),
        _ => panic!("expected a missing-function error"),
    }
}

#[test]
fn unknown_variable_is_reported() {
    let (result, _printed) = run_program("println(nowhere);");
    match result {
        Err(LenarError::VariableNotFound(name)) => assert_eq!(name, b"nowhere".to_vec()),
        _ => panic!("expected a missing-variable error"),
    }
}

#[test]
fn host_function_reaches_the_host() {
    let code = "println(answer());";
    let parser = Parser::new(code).wrap();
    let mut host = TestHost::new();
    host.parser = Some(parser.clone());
    let mut scope = Scope::default();
    scope.setup_globals();
    scope.add_global_function("answer");
    let mut cells = CellStore::new();
    let result = Runtime::run_with_scope(&mut scope, &parser, &mut cells, &mut host);
    assert!(result.is_ok());
    assert_eq!(host.printed(), "42\n");
    assert_eq!(*host.host_fn_calls.borrow(), 1);
}

#[test]
fn run_parses_and_evaluates() {
    let mut host = TestHost::new();
    Runtime::run("println(\"go\");", &mut host);
    assert_eq!(host.printed(), "go\n");
}

#[test]
fn enum_variants_peek_and_take() {
    let en = lenar::value::LenarEnum::new_with_variant("Ok".to_string(), LenarValue::Usize(5));
    match en.peek_variant("Ok") {
        Some(LenarValue::Usize(n)) => assert_eq!(*n, 5),
        _ => panic!("the stored variant must be readable"),
    }
    assert!(en.peek_variant("Err").is_none());
    match en.get_variant("Ok") {
        Some(LenarValue::Usize(n)) => assert_eq!(n, 5),
        _ => panic!("the stored variant must be takeable"),
    }
}

#[test]
fn prints_lists_and_void() {
    let (result, printed) = run_program("println(list(1 2)); print(if(isEqual(0 1)) { 9 });");
    assert!(result.is_ok());
    assert_eq!(printed, "12\nVoid");
}

#[test]
fn missing_file_is_an_error() {
    let (result, _printed) = run_program("openFile(\"nowhere\");");
    match result {
        Err(LenarError::WrongValue(_)) => {}
        _ => panic!("an unopenable file must be an error"),
    }
}

#[test]
fn sleep_is_accepted() {
    let (result, printed) = run_program("sleep(1); println(\"done\");");
    assert!(result.is_ok());
    assert_eq!(printed, "done\n");
}

#[test]
fn integers_resolve_through_reference_chains() {
    let mut cells = CellStore::new();
    let base = lenar::builtins::builtin_ref(LenarValue::Usize(3), &mut cells);
    let chained = lenar::builtins::builtin_ref(base, &mut cells);
    assert_eq!(chained.as_integer(&cells), Some(3));
    let mut direct = LenarValue::Usize(1);
    direct.set_integer(9, &mut cells);
    assert_eq!(direct.as_integer(&cells), Some(9));
    assert!(LenarValue::Void.as_integer(&cells).is_none());
}

#[test]
fn add_beyond_the_integer_range_is_an_error() {
    let code = "let r = ref(18446744073709551615); add(r 1);";
    let (result, _printed) = run_program(code);
    match result {
        Err(LenarError::WrongValue(_)) => {}
        _ => panic!("an overflowing add must be an error"),
    }
}

#[test]
fn run_stops_on_a_syntax_error() {
    let mut host = TestHost::new();
    lenar::eval::Runtime::run("= 1; println(\"no\");", &mut host);
    // a syntax error is fatal to the parse: nothing is evaluated
    assert_eq!(host.printed(), "");
}

#[test]
fn thread_arguments_see_the_spawning_scope() {
    // the arguments of a thread call are evaluated in the spawning task,
    // so a spawner's local is visible to them
    let code = "let msg = \"hi\"; let h = thread(fn(v) [] { print(v); } msg); wait(h);";
    let (result, printed) = run_program(code);
    assert!(result.is_ok());
    assert_eq!(printed, "hi");
}
