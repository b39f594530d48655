use runtime_object::ast::{BlockStatement, Identifier};
use runtime_object::builtins::NativeFn;
use runtime_object::decimal::{int_to_text, nat_to_text};
use runtime_object::object::{Environment, Object};

#[test]
fn inspect_integer() {
    assert_eq!(Object::IntegerObj(5).inspect(), "5");
    assert_eq!(Object::IntegerObj(0).inspect(), "0");
    assert_eq!(Object::IntegerObj(10).inspect(), "10");
    assert_eq!(Object::IntegerObj(-1).inspect(), "-1");
    assert_eq!(Object::IntegerObj(1234567890).inspect(), "1234567890");
}

#[test]
fn inspect_integer_limits() {
    assert_eq!(Object::IntegerObj(i64::MAX).inspect(), "9223372036854775807");
    assert_eq!(Object::IntegerObj(i64::MIN).inspect(), "-9223372036854775808");
}

#[test]
fn inspect_boolean() {
    assert_eq!(Object::BooleanObj(true).inspect(), "true");
    assert_eq!(Object::BooleanObj(false).inspect(), "false");
}

#[test]
fn inspect_string_is_its_text() {
    assert_eq!(Object::StringObj("hello world".to_string()).inspect(), "hello world");
    assert_eq!(Object::StringObj(String::new()).inspect(), "");
}

#[test]
fn inspect_error_is_its_message() {
    assert_eq!(Object::ErrorObj("x".to_string()).inspect(), "x");
}

#[test]
fn inspect_null() {
    assert_eq!(Object::Null.inspect(), "null");
}

#[test]
fn inspect_return_shows_inner_value() {
    let wrapped = Object::ReturnObj(Box::new(Object::IntegerObj(12)));
    assert_eq!(wrapped.inspect(), "12");
    let wrapped = Object::ReturnObj(Box::new(Object::Null));
    assert_eq!(wrapped.inspect(), "null");
}

#[test]
fn inspect_function_and_builtin_are_empty() {
    let function = Object::FunctionObj {
        parameters: vec![Identifier { name: "a".to_string() }],
        body: BlockStatement { source: "a + 1".to_string() },
        env: Environment::new(),
    };
    assert_eq!(function.inspect(), "");
    assert_eq!(Object::BuilinObj { func: NativeFn::Len }.inspect(), "");
}

#[test]
fn type_tag_of_integer_and_boolean() {
    assert_eq!(Object::IntegerObj(5).type_tag(), "INTEGER");
    assert_eq!(Object::IntegerObj(-7).type_tag(), "INTEGER");
    assert_eq!(Object::BooleanObj(true).type_tag(), "BOOLEAN");
    assert_eq!(Object::BooleanObj(false).type_tag(), "BOOLEAN");
}

#[test]
fn type_tag_of_other_values() {
    assert_eq!(Object::Null.type_tag(), "NOT_DEFINED");
    assert_eq!(Object::StringObj("s".to_string()).type_tag(), "NOT_DEFINED");
    assert_eq!(Object::ErrorObj("e".to_string()).type_tag(), "NOT_DEFINED");
    assert_eq!(Object::ReturnObj(Box::new(Object::IntegerObj(1))).type_tag(), "NOT_DEFINED");
}

#[test]
fn decimal_text_matches_std() {
    for n in [0u64, 1, 9, 10, 11, 99, 100, 101, 65535, u64::MAX] {
        assert_eq!(nat_to_text(n), n.to_string());
    }
    for i in [0i64, 1, -1, 9, -9, 10, -10, 1000, -1000, i64::MAX, i64::MIN, i64::MIN + 1] {
        assert_eq!(int_to_text(i), i.to_string());
    }
}

#[test]
fn clone_of_function_keeps_its_scope() {
    let mut env = Environment::new();
    env.set("captured".to_string(), Object::IntegerObj(9));
    let function = Object::FunctionObj {
        parameters: vec![
            Identifier { name: "a".to_string() },
            Identifier { name: "b".to_string() },
        ],
        body: BlockStatement { source: "a + b".to_string() },
        env,
    };
    match function.clone() {
        Object::FunctionObj { parameters, body, env } => {
            assert_eq!(parameters.len(), 2);
            assert_eq!(parameters[0].name, "a");
            assert_eq!(parameters[1].name, "b");
            assert_eq!(body.source, "a + b");
            assert!(matches!(env.get(&"captured".to_string()), Some(Object::IntegerObj(9))));
        }
        _ => panic!("not a function"),
    }
}

#[test]
fn stored_function_comes_back_whole() {
    let mut defining = Environment::new();
    defining.set("k".to_string(), Object::StringObj("kept".to_string()));
    let function = Object::FunctionObj {
        parameters: vec![Identifier { name: "p".to_string() }],
        body: BlockStatement { source: "p".to_string() },
        env: Environment::new_enclosed_environment(&defining),
    };
    let mut holder = Environment::new();
    holder.set("f".to_string(), function);
    match holder.get(&"f".to_string()) {
        Some(Object::FunctionObj { parameters, body, env }) => {
            assert_eq!(parameters.len(), 1);
            assert_eq!(parameters[0].name, "p");
            assert_eq!(body.source, "p");
            assert_eq!(env.get(&"k".to_string()).unwrap().inspect(), "kept");
        }
        _ => panic!("not a function"),
    }
}

fn adder(captured: i64) -> Object {
    let mut env = Environment::new();
    env.set("n".to_string(), Object::IntegerObj(captured));
    Object::FunctionObj {
        parameters: vec![Identifier { name: "a".to_string() }],
        body: BlockStatement { source: "a + n".to_string() },
        env,
    }
}

#[test]
fn equal_objects() {
    assert_eq!(Object::Null, Object::Null);
    assert_eq!(Object::IntegerObj(3), Object::IntegerObj(3));
    assert_eq!(Object::BooleanObj(false), Object::BooleanObj(false));
    assert_eq!(Object::StringObj("a".to_string()), Object::StringObj("a".to_string()));
    assert_eq!(Object::ErrorObj("a".to_string()), Object::ErrorObj("a".to_string()));
    assert_eq!(
        Object::ReturnObj(Box::new(Object::IntegerObj(3))),
        Object::ReturnObj(Box::new(Object::IntegerObj(3)))
    );
    assert_eq!(Object::BuilinObj { func: NativeFn::Len }, Object::BuilinObj { func: NativeFn::Len });
    assert_eq!(adder(1), adder(1));
    assert_eq!(adder(1).clone(), adder(1));
}

#[test]
fn unequal_objects() {
    assert_ne!(Object::Null, Object::IntegerObj(0));
    assert_ne!(Object::IntegerObj(3), Object::IntegerObj(4));
    assert_ne!(Object::BooleanObj(false), Object::BooleanObj(true));
    assert_ne!(Object::StringObj("a".to_string()), Object::StringObj("b".to_string()));
    assert_ne!(Object::StringObj("a".to_string()), Object::ErrorObj("a".to_string()));
    assert_ne!(Object::ReturnObj(Box::new(Object::IntegerObj(3))), Object::IntegerObj(3));
    assert_ne!(
        Object::ReturnObj(Box::new(Object::IntegerObj(3))),
        Object::ReturnObj(Box::new(Object::IntegerObj(4)))
    );
    assert_ne!(adder(1), adder(2));
    let other_body = Object::FunctionObj {
        parameters: vec![Identifier { name: "a".to_string() }],
        body: BlockStatement { source: "a - n".to_string() },
        env: Environment::new(),
    };
    let other_parameters = Object::FunctionObj {
        parameters: vec![Identifier { name: "b".to_string() }],
        body: BlockStatement { source: "a - n".to_string() },
        env: Environment::new(),
    };
    let more_parameters = Object::FunctionObj {
        parameters: vec![Identifier { name: "b".to_string() }, Identifier { name: "c".to_string() }],
        body: BlockStatement { source: "a - n".to_string() },
        env: Environment::new(),
    };
    assert_ne!(adder(1), other_body);
    assert_ne!(other_body, other_parameters);
    assert_ne!(other_parameters, more_parameters);
}

#[test]
fn len_counts_characters() {
    let result = NativeFn::Len.invoke(vec![Object::StringObj("hello".to_string())]);
    assert_eq!(result, Object::IntegerObj(5));
    let result = NativeFn::Len.invoke(vec![Object::StringObj(String::new())]);
    assert_eq!(result, Object::IntegerObj(0));
    let result = NativeFn::Len.invoke(vec![Object::StringObj("h\u{e9}llo".to_string())]);
    assert_eq!(result, Object::IntegerObj(5));
}

#[test]
fn len_rejects_wrong_number_of_arguments() {
    let result = NativeFn::Len.invoke(vec![]);
    assert_eq!(result, Object::ErrorObj("wrong number of arguments. got=0, want=1".to_string()));
    let result = NativeFn::Len.invoke(vec![
        Object::StringObj("a".to_string()),
        Object::StringObj("b".to_string()),
    ]);
    assert_eq!(result, Object::ErrorObj("wrong number of arguments. got=2, want=1".to_string()));
    let twelve: Vec<Object> = (0..12).map(|_| Object::Null).collect();
    let result = NativeFn::Len.invoke(twelve);
    assert_eq!(result, Object::ErrorObj("wrong number of arguments. got=12, want=1".to_string()));
}

#[test]
fn len_rejects_wrong_type() {
    let result = NativeFn::Len.invoke(vec![Object::IntegerObj(1)]);
    assert_eq!(
        result,
        Object::ErrorObj("argument to `len` not supported, got INTEGER".to_string())
    );
    let result = NativeFn::Len.invoke(vec![Object::BooleanObj(true)]);
    assert_eq!(
        result,
        Object::ErrorObj("argument to `len` not supported, got BOOLEAN".to_string())
    );
    let result = NativeFn::Len.invoke(vec![Object::Null]);
    assert_eq!(
        result,
        Object::ErrorObj("argument to `len` not supported, got NOT_DEFINED".to_string())
    );
}

#[test]
fn builtin_found_by_name_can_be_called() {
    let env = Environment::new();
    match env.get_builins(&"len".to_string()) {
        Some(Object::BuilinObj { func }) => {
            assert_eq!(func, NativeFn::Len);
            assert_eq!(
                func.invoke(vec![Object::StringObj("four".to_string())]),
                Object::IntegerObj(4)
            );
        }
        _ => panic!("no builtin"),
    }
}
