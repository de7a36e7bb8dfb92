use proto_value::descriptor::{
    Descriptors, EnumDescriptor, FieldDescriptor, FieldLabel, FieldType, MessageDescriptor,
};
use proto_value::stream::Reader;
use proto_value::value::{Field, Message, Value};

struct Dice(u64);

impl Dice {
    fn next(&mut self) -> u64 {
        self.0 = self.0.wrapping_mul(6364136223846793005).wrapping_add(1442695040888963407);
        self.0 >> 11
    }

    fn below(&mut self, n: u64) -> u64 {
        self.next() % n
    }

    fn wide(&mut self) -> u64 {
        match self.below(4) {
            0 => self.below(3),
            1 => self.below(300),
            2 => u64::MAX - self.below(3),
            _ => self.next() << 11 | self.below(2048),
        }
    }
}

const KINDS: [FieldType; 15] = [
    FieldType::Bool,
    FieldType::Int32,
    FieldType::Int64,
    FieldType::SInt32,
    FieldType::SInt64,
    FieldType::UInt32,
    FieldType::UInt64,
    FieldType::Fixed32,
    FieldType::Fixed64,
    FieldType::SFixed32,
    FieldType::SFixed64,
    FieldType::Float,
    FieldType::Double,
    FieldType::Bytes,
    FieldType::String,
];

fn schema() -> Descriptors {
    let mut node = MessageDescriptor::new("Node".to_string());
    let mut number = 1;
    for kind in KINDS.iter() {
        for label in [FieldLabel::Optional, FieldLabel::Repeated] {
            node.add_field(FieldDescriptor::new(
                format!("f{}", number),
                number,
                label,
                kind.clone(),
                None,
            ));
            number += 1;
        }
    }
    for (kind, label) in [
        (FieldType::Enum("E".to_string()), FieldLabel::Optional),
        (FieldType::Enum("E".to_string()), FieldLabel::Repeated),
        (FieldType::Message("Node".to_string()), FieldLabel::Optional),
        (FieldType::Message("Node".to_string()), FieldLabel::Repeated),
    ] {
        node.add_field(FieldDescriptor::new(format!("f{}", number), number, label, kind, None));
        number += 1;
    }
    let mut descriptors = Descriptors::new();
    descriptors.add_message(node);
    descriptors.add_enum(EnumDescriptor { name: "E".to_string(), values: Vec::new() });
    descriptors
}

fn value<'a>(
    dice: &mut Dice,
    descriptors: &'a Descriptors,
    kind: &FieldType,
    depth: u32,
) -> Value<'a> {
    let bits = dice.wide();
    match kind {
        FieldType::Bytes => {
            let len = dice.below(200) as usize;
            Value::Bytes((0..len).map(|_| dice.next() as u8).collect())
        }
        FieldType::String => {
            let len = dice.below(40) as usize;
            let letters = ['a', 'é', '€', '\u{10348}', '\0', ' '];
            Value::String((0..len).map(|_| letters[dice.below(6) as usize]).collect())
        }
        FieldType::Enum(_) => Value::Enum(bits as i32),
        FieldType::Message(_) => Value::Message(message(dice, descriptors, depth + 1)),
        FieldType::Fixed32 | FieldType::Fixed64 | FieldType::Float | FieldType::Double => {
            match kind {
                FieldType::Fixed32 => Value::Fixed32(bits as u32),
                FieldType::Fixed64 => Value::Fixed64(bits),
                FieldType::Float => Value::F32(bits as u32),
                _ => Value::F64(bits),
            }
        }
        _ => Value::from_bits(kind, bits),
    }
}

fn message<'a>(dice: &mut Dice, descriptors: &'a Descriptors, depth: u32) -> Message<'a> {
    let descriptor = descriptors.message_by_name(&"Node".to_string()).unwrap();
    let mut message = Message::new(descriptor);
    for declared in descriptor.fields.iter() {
        let nested = matches!(declared.field_type, FieldType::Message(_));
        if nested && depth >= 3 {
            continue;
        }
        if declared.is_repeated() {
            let len = if nested { dice.below(3) } else { dice.below(5) };
            let values = (0..len)
                .map(|_| value(dice, descriptors, &declared.field_type, depth))
                .collect();
            message.fields.insert(declared.number, Field::Repeated(values));
        } else if dice.below(3) > 0 {
            let v = value(dice, descriptors, &declared.field_type, depth);
            message.fields.insert(declared.number, Field::Singular(Some(v)));
        }
    }
    message
}

#[test]
fn random_messages_round_trip() {
    let descriptors = schema();
    let descriptor = descriptors.message_by_name(&"Node".to_string()).unwrap();
    let mut dice = Dice(2024);
    for _ in 0..60 {
        let original = message(&mut dice, &descriptors, 0);
        let bytes = original.clone().into_vec().unwrap();
        let mut decoded = Message::new(descriptor);
        let mut input = Reader::new(&bytes);
        decoded.merge_from(&descriptors, descriptor, &mut input).unwrap();
        assert!(input.eof());
        assert_eq!(decoded, original);
        assert_eq!(decoded.into_vec().unwrap(), bytes);
    }
}

#[test]
fn random_messages_round_trip_through_a_full_mask() {
    let descriptors = schema();
    let descriptor = descriptors.message_by_name(&"Node".to_string()).unwrap();
    let names: Vec<String> = descriptor.fields.iter().map(|f| f.name.clone()).collect();
    let paths: Vec<[&str; 1]> = names.iter().map(|n| [n.as_str()]).collect();
    let mut dice = Dice(7);
    for _ in 0..20 {
        let original = message(&mut dice, &descriptors, 1);
        let bytes = original.clone().into_vec().unwrap();
        let mask: Vec<&[&str]> = paths.iter().map(|p| &p[..]).collect();
        let mut decoded = Message::new(descriptor);
        let mut input = Reader::new(&bytes);
        decoded.merge_from_masked(&descriptors, descriptor, &mut input, mask).unwrap();
        assert_eq!(decoded, original);
    }
}

#[test]
fn random_bytes_are_merged_or_rejected() {
    let descriptors = schema();
    let descriptor = descriptors.message_by_name(&"Node".to_string()).unwrap();
    let mut dice = Dice(99);
    let mut merged = 0;
    let mut rejected = 0;
    for _ in 0..4000 {
        let len = dice.below(24) as usize;
        let bytes: Vec<u8> = (0..len)
            .map(|_| if dice.below(3) == 0 { dice.below(8) as u8 } else { dice.next() as u8 })
            .collect();
        let mut message = Message::new(descriptor);
        let mut input = Reader::new(&bytes);
        match message.merge_from(&descriptors, descriptor, &mut input) {
            Ok(()) => {
                assert!(input.eof());
                merged += 1;
                let again = message.clone().into_vec().unwrap();
                let mut second = Message::new(descriptor);
                second.merge_from(&descriptors, descriptor, &mut Reader::new(&again)).unwrap();
                second.unknown = message.unknown.clone();
                assert_eq!(second, message);
            }
            Err(_) => {
                rejected += 1;
                let left = input.pending_bytes();
                assert_eq!(&bytes[bytes.len() - left.len()..], left);
            }
        }
        let mask: Vec<&[&str]> = vec![&["f33", "f1"], &["f2"], &["f34", "f33", "f4"]];
        let mut masked = Message::new(descriptor);
        let _ = masked.merge_from_masked(&descriptors, descriptor, &mut Reader::new(&bytes), mask);
        assert_eq!(masked.unknown, protobuf::UnknownFields::new());
    }
    assert!(merged > 100);
    assert!(rejected > 100);
}

#[test]
fn mutated_messages_are_merged_or_rejected() {
    let descriptors = schema();
    let descriptor = descriptors.message_by_name(&"Node".to_string()).unwrap();
    let mut dice = Dice(5);
    for _ in 0..30 {
        let bytes = message(&mut dice, &descriptors, 1).into_vec().unwrap();
        for _ in 0..20 {
            let mut mutated = bytes.clone();
            if mutated.is_empty() {
                continue;
            }
            match dice.below(3) {
                0 => {
                    let at = dice.below(mutated.len() as u64) as usize;
                    mutated[at] = dice.next() as u8;
                }
                1 => {
                    let at = dice.below(mutated.len() as u64) as usize;
                    mutated.truncate(at);
                }
                _ => {
                    let at = dice.below(mutated.len() as u64) as usize;
                    mutated.insert(at, dice.next() as u8);
                }
            }
            let mut target = Message::new(descriptor);
            let mut input = Reader::new(&mutated);
            let result = target.merge_from(&descriptors, descriptor, &mut input);
            if result.is_ok() {
                assert!(input.eof());
            }
            let left = input.pending_bytes();
            assert_eq!(&mutated[mutated.len() - left.len()..], left);
        }
    }
}
