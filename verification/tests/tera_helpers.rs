use blog::assets::digest_asset as digest_asset_path;
use std::collections::HashMap;
use std::time::SystemTime;
use tera::{Context, Tera, Value};

fn digest_asset() -> impl tera::Function {
    let key = SystemTime::now();
    let key = key
        .duration_since(SystemTime::UNIX_EPOCH)
        .expect("could not generate asset timestamp");
    let key = key.as_secs();

    move |args: &HashMap<String, Value>| -> tera::Result<Value> {
        let file = match args.get("file") {
            Some(value) => match value.as_str() {
                Some(text) => Some(text),
                None => return Err("".to_string().into()),
            },
            None => None,
        };
        match digest_asset_path(file, key) {
            Some(path) => Ok(path.into()),
            None => Err("".to_string().into()),
        }
    }
}

#[test]
fn test_digest_asset() {
    let mut tera = Tera::default();
    tera.register_function("digest_asset", digest_asset());
    tera.add_raw_template("test.html", "{{ digest_asset(file='js/app.js') | safe }}")
        .unwrap();
    let result = tera.render("test.html", &Context::new()).unwrap();
    assert!(result.starts_with("/assets/js/app.js?v="));
    let parts: Vec<&str> = result.split("?v=").collect();
    assert_eq!(parts.len(), 2);
    assert_eq!(parts[0], "/assets/js/app.js");
    let version = parts[1];
    assert!(version.parse::<u64>().is_ok());
}

#[test]
fn test_digest_asset_missing_file() {
    let mut tera = Tera::default();
    tera.register_function("digest_asset", digest_asset());
    tera.add_raw_template("test.html", "{{ digest_asset() }}")
        .unwrap();
    let result = tera.render("test.html", &Context::new());
    assert!(result.is_err());
}

#[test]
fn test_digest_asset_non_string_file() {
    let mut tera = Tera::default();
    tera.register_function("digest_asset", digest_asset());
    tera.add_raw_template("test.html", "{{ digest_asset(file=42) }}")
        .unwrap();
    let result = tera.render("test.html", &Context::new());
    assert!(result.is_err());
}

#[test]
fn digest_asset_exact_path() {
    let path = digest_asset_path(Some("js/app.js"), 1700000000).unwrap();
    assert_eq!(path, "/assets/js/app.js?v=1700000000");
}

#[test]
fn digest_asset_zero_key() {
    let path = digest_asset_path(Some("style.css"), 0).unwrap();
    assert_eq!(path, "/assets/style.css?v=0");
}

#[test]
fn digest_asset_missing_argument_is_none() {
    assert!(digest_asset_path(None, 42).is_none());
}
