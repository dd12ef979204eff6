use tron::{TronAssembler, TronError, TronRef, TronTemplate};

#[test]
fn extraction_is_deterministic() {
    let text = "a @[x]@ b @[ y ]@ c @[x]@";
    let a = TronTemplate::new(text).unwrap();
    let b = TronTemplate::new(text).unwrap();
    for name in ["x", "y", "z", " y "] {
        assert_eq!(a.has_placeholder(name), b.has_placeholder(name));
    }
    assert!(a.has_placeholder("x"));
    assert!(a.has_placeholder("y"));
    assert!(!a.has_placeholder(" y "));
    assert!(!a.has_placeholder("z"));
}

#[test]
fn set_unknown_name_fails_and_mutates_nothing() {
    let mut t = TronTemplate::new("a@[x]@").unwrap();
    t.set("x", "1").unwrap();
    let err = t.set("y", "2").unwrap_err();
    assert!(matches!(err, TronError::MissingPlaceholder(n) if n == "y"));
    // the failed bind left the template exactly as it was
    assert_eq!(t.render().unwrap(), "a1");
}

#[test]
fn set_unknown_name_fails_for_any_value() {
    let mut t = TronTemplate::new("no markers here").unwrap();
    for value in ["", "v", "@[x]@"] {
        let err = t.set("x", value).unwrap_err();
        assert!(matches!(err, TronError::MissingPlaceholder(n) if n == "x"));
    }
}

#[test]
fn rebinding_last_write_wins() {
    let mut t = TronTemplate::new("<@[x]@>").unwrap();
    t.set("x", "first").unwrap();
    t.set("x", "second").unwrap();
    assert_eq!(t.render().unwrap(), "<second>");
}

#[test]
fn unbound_placeholder_blocks_render() {
    let t = TronTemplate::new("@[x]@").unwrap();
    let err = t.render().unwrap_err();
    assert!(matches!(err, TronError::MissingPlaceholder(n) if n == "x"));
}

#[test]
fn empty_string_binding_still_blocks_render() {
    // the empty string is the "unbound" sentinel, so binding it is
    // indistinguishable from never binding
    let mut t = TronTemplate::new("@[x]@").unwrap();
    t.set("x", "").unwrap();
    let err = t.render().unwrap_err();
    assert!(matches!(err, TronError::MissingPlaceholder(n) if n == "x"));
}

#[test]
fn fully_bound_template_renders_every_marker() {
    let mut t = TronTemplate::new("@[a]@-@[b]@-@[a]@").unwrap();
    t.set("a", "1").unwrap();
    t.set("b", "2").unwrap();
    let rendered = t.render().unwrap();
    assert_eq!(rendered, "1-2-1");
    assert!(!rendered.contains("@["));
}

#[test]
fn render_is_pure_and_repeatable() {
    let mut t = TronTemplate::new("hi @[who]@").unwrap();
    t.set("who", "you").unwrap();
    assert_eq!(t.render().unwrap(), "hi you");
    assert_eq!(t.render().unwrap(), "hi you");
}

#[test]
fn template_without_markers_renders_unchanged() {
    let t = TronTemplate::new("plain text, no markers").unwrap();
    assert_eq!(t.render().unwrap(), "plain text, no markers");
}

#[test]
fn empty_template_renders_empty() {
    let t = TronTemplate::new("").unwrap();
    assert_eq!(t.render().unwrap(), "");
}

#[test]
fn malformed_markers_are_not_placeholders() {
    // unclosed open delimiter
    let t = TronTemplate::new("a @[x b").unwrap();
    assert!(!t.has_placeholder("x"));
    assert_eq!(t.render().unwrap(), "a @[x b");
    // close delimiter without the trailing at sign
    let u = TronTemplate::new("@[a]b]@").unwrap();
    assert!(!u.has_placeholder("a"));
    assert_eq!(u.render().unwrap(), "@[a]b]@");
}

#[test]
fn names_are_trimmed_but_markers_are_matched_literally() {
    let mut t = TronTemplate::new("x @[  spaced  ]@ y").unwrap();
    assert!(t.has_placeholder("spaced"));
    assert!(!t.has_placeholder("  spaced  "));
    t.set("spaced", "v").unwrap();
    // substitution replaces the literal marker of the trimmed name, and
    // the padded marker text is not that literal
    assert_eq!(t.render().unwrap(), "x @[  spaced  ]@ y");
    let mut u = TronTemplate::new("x @[spaced]@ y").unwrap();
    u.set("spaced", "v").unwrap();
    assert_eq!(u.render().unwrap(), "x v y");
}

#[test]
fn composition_flattens_child_into_parent() {
    let parent = TronTemplate::new("fn @[name]@() {\n @[body]@\n}").unwrap();
    let mut parent_ref = TronRef::new(parent);
    let child = TronTemplate::new("println(\"@[message]@\");").unwrap();
    let mut child_ref = TronRef::new(child);
    child_ref.set("message", "hi").unwrap();
    parent_ref.set("name", "greet").unwrap();
    parent_ref.set_ref("body", child_ref).unwrap();
    let rendered = parent_ref.render().unwrap();
    assert!(rendered.contains("fn greet()"));
    assert!(rendered.contains("println(\"hi\");"));
    assert!(!rendered.contains("@["));
}

#[test]
fn composition_merges_dependencies_host_first() {
    let a = TronTemplate::new("@[slot]@").unwrap();
    let mut a_ref = TronRef::new(a).with_dependency("d2");
    let b = TronTemplate::new("leaf").unwrap();
    let b_ref = TronRef::new(b).with_dependency("d1");
    a_ref.set_ref("slot", b_ref).unwrap();
    assert_eq!(a_ref.dependencies(), &vec!["d2".to_string(), "d1".to_string()]);
}

#[test]
fn composition_fails_when_child_is_incomplete() {
    let parent = TronTemplate::new("@[slot]@").unwrap();
    let mut parent_ref = TronRef::new(parent);
    let child = TronTemplate::new("@[missing]@").unwrap();
    let child_ref = TronRef::new(child);
    let err = parent_ref.set_ref("slot", child_ref).unwrap_err();
    assert!(matches!(err, TronError::MissingPlaceholder(n) if n == "missing"));
    // the parent is untouched and still accepts the composition
    let child2 = TronTemplate::new("ok").unwrap();
    parent_ref.set_ref("slot", TronRef::new(child2)).unwrap();
    assert_eq!(parent_ref.render().unwrap(), "ok");
}

#[test]
fn composition_fails_on_undeclared_placeholder() {
    let parent = TronTemplate::new("no slots").unwrap();
    let mut parent_ref = TronRef::new(parent);
    let child = TronTemplate::new("leaf").unwrap();
    let err = parent_ref.set_ref("slot", TronRef::new(child)).unwrap_err();
    assert!(matches!(err, TronError::MissingPlaceholder(n) if n == "slot"));
}

#[test]
fn inner_accessors_reach_the_wrapped_template() {
    let t = TronTemplate::new("@[x]@").unwrap();
    let mut r = TronRef::new(t);
    assert!(r.inner().has_placeholder("x"));
    r.inner_mut().set("x", "v").unwrap();
    assert_eq!(r.render().unwrap(), "v");
}

#[test]
fn broadcast_binds_declaring_handles_and_skips_the_rest() {
    let mut assembler = TronAssembler::new();
    let with_x = TronTemplate::new("[@[x]@]").unwrap();
    let without_x = TronTemplate::new("static").unwrap();
    assembler.add_template(TronRef::new(with_x));
    assembler.add_template(TronRef::new(without_x));
    assembler.set_global("x", "v").unwrap();
    assert_eq!(assembler.render_all().unwrap(), "[v]\nstatic\n");
}

#[test]
fn broadcast_skip_leaves_non_declaring_handle_unaffected() {
    let mut assembler = TronAssembler::new();
    let declares = TronTemplate::new("@[x]@").unwrap();
    let other = TronTemplate::new("@[y]@").unwrap();
    assembler.add_template(TronRef::new(declares));
    assembler.add_template(TronRef::new(other));
    assembler.set_global("x", "v").unwrap();
    // the second handle's placeholder map is unchanged: y is still unbound
    let err = assembler.render_all().unwrap_err();
    assert!(matches!(err, TronError::MissingPlaceholder(n) if n == "y"));
}

#[test]
fn broadcast_composition_gives_each_target_its_own_copy() {
    let mut assembler = TronAssembler::new();
    let first = TronTemplate::new("1:@[slot]@").unwrap();
    let second = TronTemplate::new("2:@[slot]@").unwrap();
    let third = TronTemplate::new("3:none").unwrap();
    assembler.add_template(TronRef::new(first).with_dependency("hostdep"));
    assembler.add_template(TronRef::new(second));
    assembler.add_template(TronRef::new(third));
    let leaf = TronTemplate::new("leaf").unwrap();
    let leaf_ref = TronRef::new(leaf).with_dependency("leafdep");
    assembler.set_ref_global("slot", leaf_ref).unwrap();
    assert_eq!(assembler.render_all().unwrap(), "1:leaf\n2:leaf\n3:none\n");
}

#[test]
fn aggregate_render_concatenates_in_insertion_order() {
    let mut assembler = TronAssembler::new();
    assembler.add_template(TronRef::new(TronTemplate::new("a").unwrap()));
    assembler.add_template(TronRef::new(TronTemplate::new("b").unwrap()));
    assert_eq!(assembler.render_all().unwrap(), "a\nb\n");
}

#[test]
fn aggregate_render_returns_first_failure() {
    let mut assembler = TronAssembler::new();
    assembler.add_template(TronRef::new(TronTemplate::new("@[a]@").unwrap()));
    assembler.add_template(TronRef::new(TronTemplate::new("b").unwrap()));
    let err = assembler.render_all().unwrap_err();
    assert!(matches!(err, TronError::MissingPlaceholder(n) if n == "a"));
}

#[test]
fn empty_assembler_renders_empty() {
    let assembler = TronAssembler::new();
    assert_eq!(assembler.render_all().unwrap(), "");
}

#[test]
fn cloned_handle_is_independent() {
    let t = TronTemplate::new("@[x]@").unwrap();
    let mut a = TronRef::new(t).with_dependency("d");
    let mut b = a.clone();
    a.set("x", "va").unwrap();
    b.set("x", "vb").unwrap();
    assert_eq!(a.render().unwrap(), "va");
    assert_eq!(b.render().unwrap(), "vb");
    assert_eq!(b.dependencies(), &vec!["d".to_string()]);
}

#[test]
fn dependency_order_follows_calls() {
    let t = TronTemplate::new("x").unwrap();
    let r = TronRef::new(t).with_dependency("first").with_dependency("second");
    assert_eq!(r.dependencies(), &vec!["first".to_string(), "second".to_string()]);
}

#[test]
fn broadcast_composition_with_incomplete_child_fails_and_changes_nothing() {
    let mut assembler = TronAssembler::new();
    assembler.add_template(TronRef::new(TronTemplate::new("a:@[slot]@").unwrap()));
    assembler.add_template(TronRef::new(TronTemplate::new("b").unwrap()));
    let child = TronRef::new(TronTemplate::new("@[hole]@").unwrap());
    let err = assembler.set_ref_global("slot", child).unwrap_err();
    assert!(matches!(err, TronError::MissingPlaceholder(n) if n == "hole"));
    // nothing was bound: the declaring handle still fails on its own slot
    let err2 = assembler.render_all().unwrap_err();
    assert!(matches!(err2, TronError::MissingPlaceholder(n) if n == "slot"));
}

#[test]
fn broadcast_composition_with_no_target_skips_silently() {
    let mut assembler = TronAssembler::new();
    assembler.add_template(TronRef::new(TronTemplate::new("plain").unwrap()));
    let child = TronRef::new(TronTemplate::new("@[hole]@").unwrap());
    // no handle declares the placeholder, so even an unrenderable child
    // is never rendered and the broadcast succeeds
    assembler.set_ref_global("slot", child).unwrap();
    assert_eq!(assembler.render_all().unwrap(), "plain\n");
}
