use tron::{TronRef, TronTemplate};

#[test]
fn test_template_composition() {
    // Create a function template
    let function = TronTemplate::new("fn @[name]@() {\n    @[body]@\n}").unwrap();
    let mut function_ref = TronRef::new(function);

    // Create a print template to insert into the function
    let print = TronTemplate::new("println!(\"@[message]@\");").unwrap();
    let mut print_ref = TronRef::new(print);
    print_ref.set("message", "Hello from Tron!").unwrap();

    // Compose the templates
    function_ref.set("name", "greet").unwrap();
    function_ref.set_ref("body", print_ref).unwrap();

    let rendered = function_ref.render().unwrap();
    assert!(rendered.contains("fn greet()"));
    assert!(rendered.contains("println!(\"Hello from Tron!\");"));
}

#[test]
fn test_nested_composition() {
    let outer = TronTemplate::new("mod test {\n    @[function]@\n}").unwrap();
    let mut outer_ref = TronRef::new(outer);

    let inner = TronTemplate::new("fn helper() {\n    @[body]@\n}").unwrap();
    let mut inner_ref = TronRef::new(inner);

    let print = TronTemplate::new("println!(\"@[message]@\");").unwrap();
    let mut print_ref = TronRef::new(print);
    print_ref.set("message", "Nested template").unwrap();

    inner_ref.set_ref("body", print_ref).unwrap();
    outer_ref.set_ref("function", inner_ref).unwrap();

    let rendered = outer_ref.render().unwrap();
    assert!(rendered.contains("mod test {"));
    assert!(rendered.contains("fn helper()"));
    assert!(rendered.contains("println!(\"Nested template\");"));
}
