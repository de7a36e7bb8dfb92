use proto_value::descriptor::{
    Descriptors, EnumDescriptor, EnumValueDescriptor, FieldDescriptor, FieldLabel, FieldType,
    MessageDescriptor,
};
use proto_value::stream::Reader;
use proto_value::value::{Field, Message, Value};

fn field(name: &str, number: i32, label: FieldLabel, kind: FieldType) -> FieldDescriptor {
    FieldDescriptor::new(name.to_string(), number, label, kind, None)
}

#[test]
fn field_by_number_finds_the_first_field_with_the_number() {
    let mut m = MessageDescriptor::new("M".to_string());
    m.add_field(field("a", 1, FieldLabel::Optional, FieldType::Int32));
    m.add_field(field("b", 2, FieldLabel::Repeated, FieldType::String));
    m.add_field(field("c", 1, FieldLabel::Optional, FieldType::Bool));
    assert_eq!(m.field_by_number(1).unwrap().name, "a");
    assert_eq!(m.field_by_number(2).unwrap().name, "b");
    assert!(m.field_by_number(3).is_none());
    assert!(m.field_by_number(-1).is_none());
    assert_eq!(m.name, "M");
    assert_eq!(m.fields.len(), 3);
}

#[test]
fn is_repeated_follows_the_label() {
    assert!(!field("a", 1, FieldLabel::Optional, FieldType::Int32).is_repeated());
    assert!(!field("a", 1, FieldLabel::Required, FieldType::Int32).is_repeated());
    assert!(field("a", 1, FieldLabel::Repeated, FieldType::Int32).is_repeated());
}

#[test]
fn types_are_found_by_name() {
    let mut descriptors = Descriptors::new();
    descriptors.add_message(MessageDescriptor::new("a.B".to_string()));
    descriptors.add_message(MessageDescriptor::new("a.C".to_string()));
    let mut second = MessageDescriptor::new("a.B".to_string());
    second.add_field(field("x", 1, FieldLabel::Optional, FieldType::Int32));
    descriptors.add_message(second);
    descriptors.add_enum(EnumDescriptor {
        name: "a.E".to_string(),
        values: vec![EnumValueDescriptor { name: "ZERO".to_string(), number: 0 }],
    });
    assert_eq!(descriptors.message_by_name(&"a.C".to_string()).unwrap().name, "a.C");
    assert!(descriptors.message_by_name(&"a.B".to_string()).unwrap().fields.is_empty());
    assert!(descriptors.message_by_name(&"a.E".to_string()).is_none());
    assert!(descriptors.message_by_name(&"B".to_string()).is_none());
    assert_eq!(descriptors.enum_by_name(&"a.E".to_string()).unwrap().values.len(), 1);
    assert!(descriptors.enum_by_name(&"a.B".to_string()).is_none());
    assert!(Descriptors::new().message_by_name(&String::new()).is_none());
}

#[test]
fn a_new_message_takes_the_later_of_two_fields_with_one_number() {
    let mut m = MessageDescriptor::new("M".to_string());
    m.add_field(field("a", 1, FieldLabel::Optional, FieldType::Int32));
    m.add_field(field("c", 1, FieldLabel::Repeated, FieldType::Bool));
    let message = Message::new(&m);
    assert_eq!(message.fields.len(), 1);
    assert_eq!(message.fields.get(&1), Some(&Field::Repeated(Vec::new())));
}

#[test]
fn a_new_message_holds_the_defaults_of_singular_fields() {
    let mut m = MessageDescriptor::new("M".to_string());
    m.add_field(FieldDescriptor::new(
        "s".to_string(),
        1,
        FieldLabel::Optional,
        FieldType::String,
        Some(Value::String("dflt".to_string())),
    ));
    m.add_field(FieldDescriptor::new(
        "r".to_string(),
        2,
        FieldLabel::Repeated,
        FieldType::Int32,
        Some(Value::I32(1)),
    ));
    m.add_field(field("n", 3, FieldLabel::Required, FieldType::Int32));
    let message = Message::new(&m);
    assert_eq!(
        message.fields.get(&1),
        Some(&Field::Singular(Some(Value::String("dflt".to_string()))))
    );
    assert_eq!(message.fields.get(&2), Some(&Field::Repeated(Vec::new())));
    assert_eq!(message.fields.get(&3), Some(&Field::Singular(None)));
    assert_eq!(message.descriptor, &m);
}

#[test]
fn named_fields_follow_the_order_of_declaration() {
    let mut m = MessageDescriptor::new("M".to_string());
    m.add_field(field("zeta", 3, FieldLabel::Optional, FieldType::Int32));
    m.add_field(field("alpha", 1, FieldLabel::Repeated, FieldType::Int32));
    m.add_field(field("mid", 2, FieldLabel::Optional, FieldType::String));
    let mut descriptors = Descriptors::new();
    descriptors.add_message(m);
    let descriptor = descriptors.message_by_name(&"M".to_string()).unwrap();
    let mut message = Message::new(descriptor);
    let bytes = [0x08, 0x05, 0x18, 0x07, 0xa0, 0x06, 0x01];
    message.merge_from(&descriptors, descriptor, &mut Reader::new(&bytes)).unwrap();
    message.fields.remove(&2);
    message.fields.insert(9, Field::Singular(Some(Value::Bool(true))));
    let shown = message.named_fields();
    assert_eq!(shown.len(), 2);
    assert_eq!(shown[0], ("zeta", &Field::Singular(Some(Value::I32(7)))));
    assert_eq!(shown[1], ("alpha", &Field::Repeated(vec![Value::I32(5)])));
}

#[test]
fn named_fields_show_a_field_without_a_value() {
    let mut m = MessageDescriptor::new("M".to_string());
    m.add_field(field("a", 1, FieldLabel::Optional, FieldType::Int32));
    let message = Message::new(&m);
    assert_eq!(message.named_fields(), vec![("a", &Field::Singular(None))]);
}
