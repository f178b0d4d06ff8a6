use crux_core::effect::{capability_type_parts, declaration_fault, declare_effect, split_event_type, CapabilityField, DeclarationError};

fn field(name: &str, ty: &str) -> CapabilityField {
    let (capability, event) = split_event_type(&ty.as_bytes().to_vec());
    CapabilityField { field: name.as_bytes().to_vec(), capability, event }
}

fn names(fields: &[CapabilityField]) -> Vec<String> {
    fields.iter().map(|f| String::from_utf8(f.field.clone()).unwrap()).collect()
}

#[test]
fn single_render_capability() {
    let fields = vec![field("render", "Render<Event>")];
    assert_eq!(declaration_fault(&fields), None);
    let decl = declare_effect(fields);
    assert_eq!(decl.event, b"Event".to_vec());
    assert_eq!(decl.fields.len(), 1);
    assert_eq!(decl.fields[0].capability, b"Render".to_vec());
}

#[test]
fn fields_come_out_sorted_by_name() {
    let decl = declare_effect(vec![
        field("time", "Time<MyEvent>"),
        field("http", "Http<MyEvent>"),
        field("render", "Render<MyEvent>"),
        field("key_value", "KeyValue<MyEvent>"),
        field("platform", "Platform<MyEvent>"),
    ]);
    assert_eq!(decl.event, b"MyEvent".to_vec());
    assert_eq!(names(&decl.fields), vec!["http", "key_value", "platform", "render", "time"]);
    assert_eq!(decl.fields[1].capability, b"KeyValue".to_vec());
}

#[test]
fn mixed_event_types_are_rejected() {
    let fields = vec![field("render", "Render<MyEvent>"), field("time", "Time<YourEvent>")];
    assert_eq!(declaration_fault(&fields), Some(DeclarationError::MixedEventTypes));
}

#[test]
fn empty_and_duplicate_declarations_are_rejected() {
    assert_eq!(declaration_fault(&vec![]), Some(DeclarationError::NoCapabilities));
    let fields = vec![field("time", "Time<Ev>"), field("time", "Clock<Ev>")];
    assert_eq!(declaration_fault(&fields), Some(DeclarationError::DuplicateField));
}

#[test]
fn split_event_type_shapes() {
    assert_eq!(
        split_event_type(&b"Http<Event>".to_vec()),
        (b"Http".to_vec(), b"Event".to_vec())
    );
    assert_eq!(
        split_event_type(&b"Cap<Outer<Inner>>".to_vec()),
        (b"Cap".to_vec(), b"Outer<Inner>".to_vec())
    );
    assert_eq!(
        split_event_type(&b"Cap<A, B>".to_vec()),
        (b"Cap".to_vec(), b"A".to_vec())
    );
    assert_eq!(
        split_event_type(&b"Cap<Outer<A, B>, C>".to_vec()),
        (b"Cap".to_vec(), b"Outer<A, B>".to_vec())
    );
    assert_eq!(capability_type_parts(&b"Cap<, B>".to_vec()), None);
    assert_eq!(capability_type_parts(&b"Cap<Outer<A>".to_vec()), None);
    assert_eq!(capability_type_parts(&b"Render".to_vec()), None);
    assert_eq!(capability_type_parts(&b"<Event>".to_vec()), None);
    assert_eq!(capability_type_parts(&b"Render<>".to_vec()), None);
    assert_eq!(capability_type_parts(&b"Render<Event".to_vec()), None);
}
