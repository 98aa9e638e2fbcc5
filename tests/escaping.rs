use map_to_javascript_html::escape::{
    escape_newlines, escape_quote, escape_script_close_tag, escape_text, NewlinePolicy,
};

#[test]
fn quote_inside_word_is_escaped() {
    assert_eq!(r"it\'s", escape_quote("it's"));
}

#[test]
fn quote_at_start_is_escaped() {
    assert_eq!(r"\'lead", escape_quote("'lead"));
}

#[test]
fn escaped_quote_is_left_alone() {
    assert_eq!(r"\'", escape_quote(r"\'"));
    assert_eq!(r"a\'b", escape_quote(r"a\'b"));
}

#[test]
fn escaping_quotes_twice_changes_nothing() {
    let once = escape_quote("'a' 'b'' \\'c");
    assert_eq!(once, escape_quote(&once));
}

#[test]
fn every_quote_of_a_run_is_escaped() {
    assert_eq!(r"\'\'\'", escape_quote("'''"));
}

#[test]
fn close_tags_are_escaped() {
    assert_eq!(
        r"a<\/script>b<\/script>c",
        escape_script_close_tag("a</script>b</script>c")
    );
}

#[test]
fn adjacent_close_tags_are_escaped() {
    assert_eq!(r"<\/script><\/script>", escape_script_close_tag("</script></script>"));
}

#[test]
fn close_tag_match_is_exact_and_case_sensitive() {
    assert_eq!("</SCRIPT>", escape_script_close_tag("</SCRIPT>"));
    assert_eq!("</script", escape_script_close_tag("</script"));
    assert_eq!(r"<<\/script>", escape_script_close_tag("<</script>"));
}

#[test]
fn newlines_are_escaped_or_stripped() {
    assert_eq!(r"a\nb\n", escape_newlines("a\nb\n", NewlinePolicy::Escape));
    assert_eq!("ab", escape_newlines("a\nb\n", NewlinePolicy::Strip));
}

#[test]
fn safe_text_is_unchanged() {
    let text = "Hello, world! <b>bold</b> \\ 中文";
    assert_eq!(text, escape_text(text));
    assert_eq!(text, escape_quote(text));
    assert_eq!(text, escape_script_close_tag(text));
    assert_eq!(text, escape_newlines(text, NewlinePolicy::Strip));
}

#[test]
fn full_escaping_composes_the_three_passes() {
    assert_eq!(
        r"it\'s <\/script>\nend",
        escape_text("it's </script>\nend")
    );
}

#[test]
fn empty_text_stays_empty() {
    assert_eq!("", escape_text(""));
    assert_eq!("", escape_quote(""));
}
