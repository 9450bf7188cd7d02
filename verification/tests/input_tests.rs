use asimov_core::AsimovError;
use asimov_core::Embeddable;
use asimov_core::Input;
use core::hash::Hash;
use core::hash::Hasher;

#[derive(Clone)]
struct CustomType {
    key: String,
    name: String,
}

impl Input for CustomType {
    fn render(&self) -> Result<String, AsimovError> {
        let fields_rendered: Result<Vec<String>, AsimovError> =
            vec![self.key.render(), self.name.render()].into_iter().collect();
        fields_rendered.map(|v| v.join(", "))
    }
}

impl Embeddable for CustomType {
    type Key = String;

    fn key(&self) -> &String {
        &self.name
    }
}

#[derive(Clone, PartialEq, Eq, Debug)]
struct CustomType2 {
    name: String,
    phone: String,
    address: String,
}

impl Input for CustomType2 {
    fn render(&self) -> Result<String, AsimovError> {
        Ok(self.name.clone())
    }
}

impl Embeddable for CustomType2 {
    type Key = String;

    fn key(&self) -> &String {
        &self.name
    }
}

#[derive(Clone)]
struct CustomType3 {
    name: String,
    internal: CustomType2,
}

impl Input for CustomType3 {
    fn render(&self) -> Result<String, AsimovError> {
        let fields_rendered: Result<Vec<String>, AsimovError> =
            vec![self.name.render(), self.internal.render()].into_iter().collect();
        fields_rendered.map(|v| v.join(", "))
    }
}

impl Embeddable for CustomType3 {
    type Key = CustomType3;

    fn key(&self) -> &CustomType3 {
        self
    }
}

fn lines(strs: &[&str]) -> String {
    let mut result = String::new();
    for s in strs {
        result.push_str(s);
        result.push('\n');
    }
    result
}

#[test]
fn test_embed() {
    let custom_type = CustomType2 {
        name: "custom object".to_string(),
        phone: "1234567890".to_string(),
        address: "1234 Main St".to_string(),
    };

    assert_eq!(custom_type.key().render().unwrap(), "custom object");
}

#[test]
fn test_input() {
    let custom_type = CustomType {
        key: "key".to_string(),
        name: "custom object".to_string(),
    };

    let another_custom_type = CustomType {
        key: "key".to_string(),
        name: "another custom object".to_string(),
    };

    let template = lines(&[
        "do this job using: {{custom_type}}",
        "Another task using: {{another_custom_type}}",
    ]);
    let mut tera_context = tera::Context::new();
    tera_context.insert("custom_type", &custom_type.render().unwrap());
    tera_context.insert("another_custom_type", &another_custom_type.render().unwrap());
    let context =
        tera::Tera::one_off(&template, &tera_context, true).expect("Failed to render template");

    assert_eq!(
        context,
        "do this job using: key, custom object\nAnother task using: key, another custom object\n"
    );
}

#[test]
fn macro_prompt() {
    let ident1 = "23.4,56.4,56.3,23.4,443.2,456.4,456.2,42.5";
    let ident2 = "1";
    let ident3 = "1";

    let template = lines(&[
        "You are a data scientist. You have been given the following values in csv: ",
        "data: {{ ident1 }}",
        "Calculate the median of the above values.",
        "number 1: {{ ident2 }}",
        "number 2: {{ ident3 }}",
        "Calculate the sum of above 2 numbers.",
    ]);
    let mut tera_context = tera::Context::new();
    tera_context.insert("ident1", &ident1.render().unwrap());
    tera_context.insert("ident2", &ident2.render().unwrap());
    tera_context.insert("ident3", &ident3.render().unwrap());
    let rendered =
        tera::Tera::one_off(&template, &tera_context, true).expect("Failed to render template");

    println!("{}", rendered);
}

#[test]
fn test_nested_embed() {
    let custom_type = CustomType3 {
        name: "custom object".to_string(),
        internal: CustomType2 {
            name: "custom object".to_string(),
            phone: "1234567890".to_string(),
            address: "1234 Main St".to_string(),
        },
    };

    println!("{}", custom_type.key().render().unwrap());
}

#[test]
fn test_hash_matches_default_hasher() {
    let s = "some rendered key text".to_string();
    let mut h = twox_hash::XxHash64::default();
    Hash::hash(&s, &mut h);
    let expected = h.finish();
    assert_eq!(Input::hash(&s).unwrap(), expected);
}

#[test]
fn test_hash_distinguishes_texts() {
    let a = "test key 1".to_string();
    let b = "test key 2".to_string();
    assert_ne!(Input::hash(&a).unwrap(), Input::hash(&b).unwrap());
}

#[test]
fn test_value_render_pretty() {
    let mut map = serde_json::Map::new();
    map.insert("name".to_string(), serde_json::Value::String("pin".to_string()));
    let v = serde_json::Value::Object(map);
    let rendered = v.render().unwrap();
    assert_eq!(rendered, "{\n  \"name\": \"pin\"\n}");
}

#[test]
fn test_integer_render() {
    assert_eq!(42i64.render().unwrap(), "42");
    assert_eq!((-7i32).render().unwrap(), "-7");
    assert_eq!(0i64.render().unwrap(), "0");
    assert_eq!(true.render().unwrap(), "true");
    assert_eq!(false.render().unwrap(), "false");
    assert_eq!(i64::MIN.render().unwrap(), "-9223372036854775808");
}

#[test]
fn test_vec_and_option_render() {
    let v: Vec<String> = vec!["ab".to_string(), "cd".to_string()];
    assert_eq!(v.render().unwrap(), "abcd");
    let some: Option<String> = Some("x".to_string());
    assert_eq!(some.render().unwrap(), "x");
    let none: Option<String> = None;
    assert_eq!(none.render().unwrap(), "");
    let boxed: Box<&str> = Box::new("boxed");
    assert_eq!(boxed.render().unwrap(), "boxed");
}
