use serde_json::Value;

use map_to_javascript_html::MapToJavaScriptHTML;

fn sink_text(bytes: Vec<u8>) -> String {
    String::from_utf8(bytes).unwrap()
}

#[test]
fn serde_json_map_to_javascript_html() {
    let mut map = serde_json::Map::new();
    map.insert("test-1".to_string(), Value::from("Test 1!"));
    assert_eq!("text['test-1']='Test 1!';", map.to_javascript_html("text"));

    let mut map = serde_json::Map::new();
    map.insert("test-1'".to_string(), Value::from(1));
    assert_eq!(r"text['test-1\'']=1;", map.to_javascript_html("text"));

    let mut map = serde_json::Map::new();
    map.insert("test-1".to_string(), serde_json::to_value([1, 2, 3, 4, 5]).unwrap());
    assert_eq!("text['test-1']=[1,2,3,4,5];", map.to_javascript_html("text"));
}

#[test]
fn serde_json_map_to_javascript_html_to_writer() {
    let mut map = serde_json::Map::new();
    map.insert("test-1".to_string(), Value::from("Test 1!"));
    let mut s: Vec<u8> = Vec::new();
    map.to_javascript_html_to_writer("text", &mut s).unwrap();
    assert_eq!("text['test-1']='Test 1!';", sink_text(s));

    map.clear();
    map.insert("test-1'".to_string(), Value::from(1));
    let mut s: Vec<u8> = Vec::new();
    map.to_javascript_html_to_writer("text", &mut s).unwrap();
    assert_eq!(r"text['test-1\'']=1;", sink_text(s));

    map.clear();
    map.insert("test-1".to_string(), serde_json::to_value([1, 2, 3, 4, 5]).unwrap());
    let mut s: Vec<u8> = Vec::new();
    map.to_javascript_html_to_writer("text", &mut s).unwrap();
    assert_eq!("text['test-1']=[1,2,3,4,5];", sink_text(s));
}

#[test]
fn serde_json_map_to_javascript_html_with_keys() {
    let mut map = serde_json::Map::new();
    map.insert(String::from("test-1"), Value::from("Test 1!"));
    map.insert(String::from("test-2"), Value::from("Test 2!"));

    assert_eq!("text['test-1']='Test 1!';", map.to_javascript_html_with_keys("text", &["test-1"]));
    assert_eq!("text['test-3']=undefined;", map.to_javascript_html_with_keys("text", &["test-3"]));
}

#[test]
fn serde_json_map_to_javascript_html_with_keys_to_writer() {
    let mut map = serde_json::Map::new();
    map.insert(String::from("test-1"), Value::from("Test 1!"));
    map.insert(String::from("test-2"), Value::from("Test 2!"));

    let mut s: Vec<u8> = Vec::new();
    map.to_javascript_html_with_keys_to_writer("text", &["test-1"], &mut s).unwrap();
    assert_eq!("text['test-1']='Test 1!';", sink_text(s));

    let mut s: Vec<u8> = Vec::new();
    map.to_javascript_html_with_keys_to_writer("text", &["test-3"], &mut s).unwrap();
    assert_eq!("text['test-3']=undefined;", sink_text(s));
}

#[test]
fn json_leaves_are_written_bare() {
    let mut map = serde_json::Map::new();
    map.insert("n".to_string(), Value::Null);
    map.insert("t".to_string(), Value::from(true));
    map.insert("f".to_string(), Value::from(false));
    map.insert("x".to_string(), Value::from(-2.5));
    assert_eq!(
        "v['f']=false;v['n']=null;v['t']=true;v['x']=-2.5;",
        map.to_javascript_html("v")
    );
}

#[test]
fn json_composite_escapes_close_tags_only() {
    let mut map = serde_json::Map::new();
    let mut inner = serde_json::Map::new();
    inner.insert("a".to_string(), Value::from("it's </script>"));
    map.insert("o".to_string(), Value::Object(inner));
    assert_eq!(r#"v['o']={"a":"it's <\/script>"};"#, map.to_javascript_html("v"));
}

#[test]
fn json_string_is_quoted_and_escaped() {
    let mut map = serde_json::Map::new();
    map.insert("k'".to_string(), Value::from("a'b\nc"));
    assert_eq!(r"v['k\'']='a\'b\nc';", map.to_javascript_html("v"));
    assert_eq!(
        "v['k\\''] = 'a\\'b\\nc';",
        map.to_javascript_html_with_keys_beautify("v", &["k'"], map_to_javascript_html::layout::Indent {
            unit: map_to_javascript_html::layout::IndentUnit::Space,
            count: 0,
        })
    );
}
