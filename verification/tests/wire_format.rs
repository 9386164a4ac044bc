use chat_lib::message::MessageType;
use serde::ser::SerializeStructVariant;
use serde::{Serialize, Serializer};

/// The message as an enum that serde writes variant by variant: the variant's
/// index, then its fields.
enum Tagged {
    Text(String),
    Image(Vec<u8>),
    File { name: String, content: Vec<u8> },
}

impl Serialize for Tagged {
    fn serialize<S: Serializer>(&self, serializer: S) -> Result<S::Ok, S::Error> {
        match self {
            Tagged::Text(body) => serializer.serialize_newtype_variant("MessageType", 0, "Text", body),
            Tagged::Image(bytes) => {
                serializer.serialize_newtype_variant("MessageType", 1, "Image", bytes)
            }
            Tagged::File { name, content } => {
                let mut state = serializer.serialize_struct_variant("MessageType", 2, "File", 2)?;
                state.serialize_field("name", name)?;
                state.serialize_field("content", content)?;
                state.end()
            }
        }
    }
}

fn pairs() -> Vec<(MessageType, Tagged)> {
    vec![
        (MessageType::Text("hello".to_string()), Tagged::Text("hello".to_string())),
        (MessageType::Text(String::new()), Tagged::Text(String::new())),
        (MessageType::Text("grüße ✓".to_string()), Tagged::Text("grüße ✓".to_string())),
        (MessageType::Image(vec![]), Tagged::Image(vec![])),
        (MessageType::Image(vec![0, 128, 255]), Tagged::Image(vec![0, 128, 255])),
        (
            MessageType::File { name: "notes.txt".to_string(), content: vec![1, 2, 3] },
            Tagged::File { name: "notes.txt".to_string(), content: vec![1, 2, 3] },
        ),
        (
            MessageType::File { name: String::new(), content: vec![] },
            Tagged::File { name: String::new(), content: vec![] },
        ),
    ]
}

#[test]
fn payload_is_what_bincode_writes_for_the_enum() {
    for (message, tagged) in pairs() {
        assert_eq!(message.serialize(), bincode::serialize(&tagged).unwrap());
    }
}

#[test]
fn what_bincode_writes_for_the_enum_is_decoded() {
    for (message, tagged) in pairs() {
        let payload = bincode::serialize(&tagged).unwrap();
        assert_eq!(MessageType::deserialize_from_bytes(&payload), Ok(message));
    }
}
