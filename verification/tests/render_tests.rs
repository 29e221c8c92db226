use code_macros::render::render;
use code_macros::store::{get_value, Variable, VariableStore, VariableValue};

#[test]
fn render_plain_text_unchanged() {
    let store = VariableStore::new();
    assert_eq!(render("hello world", &store), "hello world");
}

#[test]
fn render_empty_template() {
    let store = VariableStore::new();
    assert_eq!(render("", &store), "");
}

#[test]
fn render_substitutes_number() {
    let mut store = VariableStore::new();
    store.set("x".to_string(), VariableValue::NumberValue(3));
    assert_eq!(render("a {{x}} b", &store), "a 3 b");
}

#[test]
fn render_unset_is_undefined() {
    let store = VariableStore::new();
    assert_eq!(render("a {{x}} b", &store), "a undefined b");
}

#[test]
fn render_escape_before_placeholder() {
    // The backslash is removed literally; it does not keep the placeholder
    // from resolving, because substitution runs before the escape pass.
    let store = VariableStore::new();
    assert_eq!(render("a\\{{x}}b", &store), "aundefinedb");
}

#[test]
fn render_escape_keeps_next_character() {
    let store = VariableStore::new();
    assert_eq!(render("x\\\\y", &store), "x\\y");
    assert_eq!(render("\\ab", &store), "ab");
    assert_eq!(render("ab\\", &store), "ab");
}

#[test]
fn render_substitutes_string_value() {
    let mut store = VariableStore::new();
    store.set("name".to_string(), VariableValue::StringValue("world".to_string()));
    assert_eq!(render("hello {{name}}!", &store), "hello world!");
}

#[test]
fn render_escapes_inside_substituted_value() {
    // The escape pass runs over the fully substituted string, so escapes
    // coming from a variable's value are processed too.
    let mut store = VariableStore::new();
    store.set("v".to_string(), VariableValue::StringValue("a\\b".to_string()));
    assert_eq!(render("{{v}}", &store), "ab");
}

#[test]
fn render_negative_number() {
    let mut store = VariableStore::new();
    store.set("n".to_string(), VariableValue::NumberValue(-5));
    assert_eq!(render("{{n}}", &store), "-5");
}

#[test]
fn render_unclosed_placeholder_reads_to_end() {
    let store = VariableStore::new();
    assert_eq!(render("a{{x", &store), "aundefined");
}

#[test]
fn render_keeps_text_after_a_stray_close() {
    // A `}}` with no placeholder open before it is plain text and stays.
    let store = VariableStore::new();
    assert_eq!(render("{{x}}b}}c", &store), "undefinedb}}c");
    assert_eq!(render("a}}b", &store), "a}}b");
}

#[test]
fn render_two_placeholders() {
    let mut store = VariableStore::new();
    store.set("a".to_string(), VariableValue::NumberValue(1));
    store.set("b".to_string(), VariableValue::NumberValue(2));
    assert_eq!(render("{{a}}+{{b}}", &store), "1+2");
}

#[test]
fn get_value_renders_numbers_decimal() {
    assert_eq!(get_value(&VariableValue::NumberValue(0)), "0");
    assert_eq!(get_value(&VariableValue::NumberValue(3)), "3");
    assert_eq!(get_value(&VariableValue::NumberValue(1234567)), "1234567");
    assert_eq!(get_value(&VariableValue::NumberValue(-12)), "-12");
    assert_eq!(
        get_value(&VariableValue::NumberValue(i64::MIN)),
        "-9223372036854775808"
    );
    assert_eq!(
        get_value(&VariableValue::NumberValue(i64::MAX)),
        "9223372036854775807"
    );
}

#[test]
fn get_value_returns_strings_unchanged() {
    assert_eq!(
        get_value(&VariableValue::StringValue("plain".to_string())),
        "plain"
    );
}

#[test]
fn store_set_overwrites() {
    let mut store = VariableStore::new();
    store.set("x".to_string(), VariableValue::NumberValue(1));
    store.set("x".to_string(), VariableValue::NumberValue(2));
    assert_eq!(render("{{x}}", &store), "2");
}

#[test]
fn store_get_absent_is_none() {
    let store = VariableStore::new();
    assert!(store.get("missing").is_none());
}

#[test]
fn store_get_finds_set_value() {
    let mut store = VariableStore::new();
    store.set("x".to_string(), VariableValue::NumberValue(7));
    let v = store.get("x").expect("x was set");
    assert_eq!(*v, Variable::new(VariableValue::NumberValue(7)));
}
