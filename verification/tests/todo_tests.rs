use minihttp::handlers::Todo;

#[test]
fn it_can_serialize() {
    let todo = Todo {
        id: "123".to_string(),
        completed_at: false,
        title: "Gg".to_string(),
    };
    let str = todo.to_json();

    assert_eq!(
        str,
        "{\"id\":\"123\",\"completed_at\":false,\"title\":\"Gg\"}"
    );
}

#[test]
fn it_can_deserialize() {
    let str = "{\"id\":\"123\",\"completed_at\":false,\"title\":\"Gg\"}";

    let todo: Todo = Todo::from_json(&str).expect("Failed to deserialize");

    assert_eq!(
        todo,
        Todo {
            id: "123".to_string(),
            completed_at: false,
            title: "Gg".to_string(),
        }
    );
}

#[test]
fn serde_agrees_with_codec() {
    let rendered = Todo {
        id: "123".to_string(),
        completed_at: true,
        title: "Gg".to_string(),
    }
    .to_json();
    let value: serde_json::Value =
        serde_json::from_str(&rendered).expect("codec output is valid JSON");
    assert_eq!(value["id"], serde_json::Value::String("123".to_string()));
    assert_eq!(value["completed_at"], serde_json::Value::Bool(true));
    assert_eq!(value["title"], serde_json::Value::String("Gg".to_string()));
}

#[test]
fn json_round_trip() {
    let todo = Todo {
        id: "a1".to_string(),
        completed_at: true,
        title: "write tests".to_string(),
    };
    let back = Todo::from_json(&todo.to_json()).expect("round trip must succeed");
    assert_eq!(back, todo);
}

#[test]
fn from_json_rejects_garbage() {
    assert!(Todo::from_json("not json").is_none());
    assert!(Todo::from_json("").is_none());
    assert!(Todo::from_json("{\"id\":\"1\"}").is_none());
    assert!(Todo::from_json("{\"id\":\"1\",\"completed_at\":maybe,\"title\":\"x\"}").is_none());
    assert!(Todo::from_json("{\"id\":\"1\",\"completed_at\":false,\"title\":\"x\"} ").is_none());
}
