use std::collections::HashMap;

use map_to_javascript_html::MapToJavaScriptHTML;

fn written_text(bytes: Vec<u8>) -> String {
    String::from_utf8(bytes).unwrap()
}

#[test]
fn to_javascript_html() {
    let mut map: HashMap<&str, &str> = HashMap::new();
    map.insert("test-1", "Test 1!");
    assert_eq!("text['test-1']='Test 1!';", map.to_javascript_html("text"));

    let mut map: HashMap<u8, &str> = HashMap::new();
    map.insert(1, "Test 1'!");
    assert_eq!(r"text[1]='Test 1\'!';", map.to_javascript_html("text"));

    let mut map: HashMap<u8, u8> = HashMap::new();
    map.insert(1, 2);
    assert_eq!("text[1]=2;", map.to_javascript_html("text"));

    let mut map: HashMap<&str, u8> = HashMap::new();
    map.insert("test-1'", 2);
    assert_eq!(r"text['test-1\'']=2;", map.to_javascript_html("text"));
}

#[test]
fn to_javascript_html_to_writer() {
    let mut map: HashMap<&str, &str> = HashMap::new();
    map.insert("test-1", "Test 1!");
    let mut s: Vec<u8> = Vec::new();
    map.to_javascript_html_to_writer("text", &mut s).unwrap();
    assert_eq!("text['test-1']='Test 1!';", written_text(s));

    let mut map: HashMap<u8, &str> = HashMap::new();
    map.insert(1, "Test 1'!");
    let mut s: Vec<u8> = Vec::new();
    map.to_javascript_html_to_writer("text", &mut s).unwrap();
    assert_eq!(r"text[1]='Test 1\'!';", written_text(s));

    let mut map: HashMap<u8, u8> = HashMap::new();
    map.insert(1, 2);
    let mut s: Vec<u8> = Vec::new();
    map.to_javascript_html_to_writer("text", &mut s).unwrap();
    assert_eq!("text[1]=2;", written_text(s));

    let mut map: HashMap<&str, u8> = HashMap::new();
    map.insert("test-1'", 2);
    let mut s: Vec<u8> = Vec::new();
    map.to_javascript_html_to_writer("text", &mut s).unwrap();
    assert_eq!(r"text['test-1\'']=2;", written_text(s));
}

#[test]
fn to_javascript_html_with_keys() {
    let mut map: HashMap<&str, &str> = HashMap::new();
    map.insert("test-1", "Test 1!");
    map.insert("test-2", "Test 2!");

    assert_eq!("text['test-1']='Test 1!';", map.to_javascript_html_with_keys("text", &["test-1"]));
    assert_eq!("text['test-3']=undefined;", map.to_javascript_html_with_keys("text", &["test-3"]));
}

#[test]
fn to_javascript_html_with_keys_to_writer() {
    let mut map: HashMap<&str, &str> = HashMap::new();
    map.insert("test-1", "Test 1!");
    map.insert("test-2", "Test 2!");

    let mut s: Vec<u8> = Vec::new();
    map.to_javascript_html_with_keys_to_writer("text", &["test-1"], &mut s).unwrap();
    assert_eq!("text['test-1']='Test 1!';", written_text(s));

    let mut s: Vec<u8> = Vec::new();
    map.to_javascript_html_with_keys_to_writer("text", &["test-3"], &mut s).unwrap();
    assert_eq!("text['test-3']=undefined;", written_text(s));
}
