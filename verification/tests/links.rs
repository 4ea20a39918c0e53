use stories::links::{extract_links, links_section};

#[test]
fn links_are_found_in_order() {
    let text = "see https://example.com/x and http://a.b for details";
    assert_eq!(extract_links(text), vec!["https://example.com/x", "http://a.b"]);
}

#[test]
fn a_scheme_alone_is_no_link() {
    assert_eq!(extract_links("https:// is how they start"), Vec::<String>::new());
    assert_eq!(extract_links("http:// too"), Vec::<String>::new());
    assert_eq!(extract_links("plain words only"), Vec::<String>::new());
}

#[test]
fn links_run_to_the_next_blank() {
    assert_eq!(
        extract_links("go https://example.com/a?b=c&d=e#f now"),
        vec!["https://example.com/a?b=c&d=e#f"]
    );
    assert_eq!(extract_links("end https://example.com"), vec!["https://example.com"]);
}

#[test]
fn links_need_no_leading_blank() {
    assert_eq!(extract_links("xhttps://tail"), vec!["https://tail"]);
}

#[test]
fn the_links_section_bullets_each_link() {
    let links = vec!["https://a.example".to_string(), "http://b.example".to_string()];
    assert_eq!(
        links_section(&links),
        "## Links\n- https://a.example\n- http://b.example"
    );
}
