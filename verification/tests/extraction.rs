use wiki_crawler::crawl::parse::{
    extract_from_elements, extract_relevant_wikipedia_links, extract_wikipedia_HTML,
    filter_image_links, filter_page_links, image_rejection, is_parseable, link_rejection,
    HTMLExtractionResult, ImageRule, ImageTag, LinkRule, MAX_BODY_BYTES,
};

fn page(body: &str) -> String {
    format!("<html><head><title>t</title></head><body>{}</body></html>", body)
}

fn tag(width: Option<&str>, height: Option<&str>, src: Option<&str>) -> ImageTag {
    ImageTag {
        width: width.map(String::from),
        height: height.map(String::from),
        src: src.map(String::from),
    }
}

#[test]
fn plain_path_is_followed_behind_the_site_prefix() {
    let links = extract_relevant_wikipedia_links(&page("<a href=\"/wiki/Foo\">Foo</a>"));
    assert_eq!(links, vec!["https://wikipedia.org/wiki/Foo".to_string()]);
}

#[test]
fn fragment_href_is_dropped() {
    let links = extract_relevant_wikipedia_links(&page("<a href=\"/wiki/Foo#section\">Foo</a>"));
    assert!(links.is_empty());
    assert_eq!(link_rejection("/wiki/Foo#section"), Some(LinkRule::Fragment));
    assert_eq!(link_rejection("/wiki/Foo"), None);
}

#[test]
fn each_link_rule_drops_its_own_shape() {
    assert_eq!(link_rejection("//en.wikipedia.org/wiki/Foo"), Some(LinkRule::OwnDomain));
    assert_eq!(link_rejection("//www.wikidata.org/wiki/Q1"), Some(LinkRule::DataDomain));
    assert_eq!(link_rejection("//commons.wikimedia.org/wiki/X"), Some(LinkRule::MediaDomain));
    assert_eq!(link_rejection("https://example.com/"), Some(LinkRule::SecureScheme));
    assert_eq!(link_rejection("/wiki/Help:Contents"), Some(LinkRule::Colon));
    assert_eq!(link_rejection("#cite_note-1"), Some(LinkRule::Fragment));
    assert_eq!(link_rejection("/wiki/Caf%C3%A9"), Some(LinkRule::Escape));
    assert_eq!(link_rejection("/w/index.php?title=Foo&action=edit"), Some(LinkRule::QuerySeparator));
    assert_eq!(link_rejection("/wiki/Mercury_(disambiguation)"), Some(LinkRule::Disambiguation));
}

#[test]
fn link_rules_are_tried_in_order() {
    // Holds the own domain, the scheme, a colon and a fragment: the first rule names it.
    assert_eq!(link_rejection("https://wikipedia.org/wiki/Foo#x"), Some(LinkRule::OwnDomain));
    // Holds the scheme and therefore a colon: the scheme comes first.
    assert_eq!(link_rejection("https://example.com/a"), Some(LinkRule::SecureScheme));
    // http without s is dropped for its colon.
    assert_eq!(link_rejection("http://example.com/a"), Some(LinkRule::Colon));
    // A fragment and an escape: the fragment comes first.
    assert_eq!(link_rejection("/wiki/A%20B#c"), Some(LinkRule::Fragment));
}

#[test]
fn empty_href_is_followed() {
    assert_eq!(link_rejection(""), None);
    let links = extract_relevant_wikipedia_links(&page("<a href=\"\">x</a>"));
    assert_eq!(links, vec!["https://wikipedia.org".to_string()]);
}

#[test]
fn anchor_without_href_is_skipped() {
    let links = extract_relevant_wikipedia_links(&page("<a name=\"top\">x</a><a href=\"/wiki/A\">A</a>"));
    assert_eq!(links, vec!["https://wikipedia.org/wiki/A".to_string()]);
}

#[test]
fn links_keep_document_order_and_repetitions() {
    let body = page(
        "<a href=\"/wiki/B\">B</a><p><a href=\"/wiki/A#x\">skip</a><a href=\"/wiki/A\">A</a></p><a href=\"/wiki/B\">B</a>",
    );
    let links = extract_relevant_wikipedia_links(&body);
    assert_eq!(
        links,
        vec![
            "https://wikipedia.org/wiki/B".to_string(),
            "https://wikipedia.org/wiki/A".to_string(),
            "https://wikipedia.org/wiki/B".to_string(),
        ]
    );
}

#[test]
fn filter_page_links_on_given_hrefs() {
    let hrefs = vec![
        Some("/wiki/A".to_string()),
        None,
        Some("/wiki/B&c".to_string()),
        Some("/wiki/C".to_string()),
    ];
    assert_eq!(
        filter_page_links(&hrefs),
        vec!["https://wikipedia.org/wiki/A".to_string(), "https://wikipedia.org/wiki/C".to_string()]
    );
    assert_eq!(filter_page_links(&Vec::new()), Vec::<String>::new());
}

#[test]
fn small_image_is_dropped_whatever_its_source() {
    let body = page("<img width=\"40\" src=\"/media/pic.jpg\"><img width=\"40\"><img width=\"40\" src=\"//upload.example/a.png\">");
    let result = extract_wikipedia_HTML(&body, "https://wikipedia.org/wiki/X");
    assert!(result.relevant_image_links.is_empty());
    assert_eq!(image_rejection(&tag(Some("40"), None, Some("/media/pic.jpg"))), Some(ImageRule::SmallWidth));
    assert_eq!(image_rejection(&tag(Some("40"), None, None)), Some(ImageRule::SmallWidth));
}

#[test]
fn large_image_gets_the_scheme_prefix() {
    let body = page("<img width=\"120\" src=\"/media/pic.jpg\">");
    let result = extract_wikipedia_HTML(&body, "https://wikipedia.org/wiki/X");
    assert_eq!(result.relevant_image_links, vec!["https:/media/pic.jpg".to_string()]);
    assert!(result.relevant_page_links.is_empty());
}

#[test]
fn protocol_relative_source_becomes_absolute() {
    let body = page("<img src=\"//upload.example.org/a/b.jpg\" width=\"220\" height=\"147\">");
    let result = extract_wikipedia_HTML(&body, "u");
    assert_eq!(result.relevant_image_links, vec!["https://upload.example.org/a/b.jpg".to_string()]);
}

#[test]
fn dimension_threshold_is_fifty() {
    assert_eq!(image_rejection(&tag(Some("49"), None, Some("/a.jpg"))), Some(ImageRule::SmallWidth));
    assert_eq!(image_rejection(&tag(Some("50"), None, Some("/a.jpg"))), None);
    assert_eq!(image_rejection(&tag(None, Some("49"), Some("/a.jpg"))), Some(ImageRule::SmallHeight));
    assert_eq!(image_rejection(&tag(None, Some("50"), Some("/a.jpg"))), None);
    assert_eq!(image_rejection(&tag(Some("50"), Some("10"), Some("/a.jpg"))), Some(ImageRule::SmallHeight));
    assert_eq!(image_rejection(&tag(Some("10"), Some("10"), Some("/a.jpg"))), Some(ImageRule::SmallWidth));
    assert_eq!(image_rejection(&tag(Some("0"), None, Some("/a.jpg"))), Some(ImageRule::SmallWidth));
    assert_eq!(image_rejection(&tag(Some("-7"), None, Some("/a.jpg"))), Some(ImageRule::SmallWidth));
    assert_eq!(image_rejection(&tag(Some("+7"), None, Some("/a.jpg"))), Some(ImageRule::SmallWidth));
}

#[test]
fn unreadable_dimension_is_no_reason_to_drop() {
    for text in ["", "abc", "40px", " 40", "4 0", "12.5", "+", "-", "99999999999", "-99999999999", "٤٠"] {
        assert_eq!(image_rejection(&tag(Some(text), None, Some("/a.jpg"))), None, "width {:?}", text);
        assert_eq!(image_rejection(&tag(None, Some(text), Some("/a.jpg"))), None, "height {:?}", text);
    }
    let body = page("<img width=\"auto\" height=\"100%\" src=\"/media/pic.jpg\">");
    let result = extract_wikipedia_HTML(&body, "u");
    assert_eq!(result.relevant_image_links, vec!["https:/media/pic.jpg".to_string()]);
}

#[test]
fn dimension_at_the_edges_of_32_bits() {
    assert_eq!(image_rejection(&tag(Some("2147483647"), None, Some("/a.jpg"))), None);
    assert_eq!(image_rejection(&tag(Some("2147483648"), None, Some("/a.jpg"))), None);
    assert_eq!(
        image_rejection(&tag(Some("-2147483648"), None, Some("/a.jpg"))),
        Some(ImageRule::SmallWidth)
    );
    assert_eq!(image_rejection(&tag(Some("-2147483649"), None, Some("/a.jpg"))), None);
    assert_eq!(image_rejection(&tag(Some("0000000000040"), None, Some("/a.jpg"))), Some(ImageRule::SmallWidth));
}

#[test]
fn each_image_rule_drops_its_own_shape() {
    assert_eq!(image_rejection(&tag(None, None, None)), Some(ImageRule::NoSource));
    assert_eq!(image_rejection(&tag(None, None, Some("/static/images/icon.png"))), Some(ImageRule::StaticAsset));
    assert_eq!(
        image_rejection(&tag(None, None, Some("//upload.example/wikipedia/en/logo.svg"))),
        Some(ImageRule::SiteLogo)
    );
    assert_eq!(
        image_rejection(&tag(None, None, Some("//example.org/api/math/render/svg/abc"))),
        Some(ImageRule::MathRendering)
    );
    assert_eq!(image_rejection(&tag(None, None, Some("http://example.org/a.png"))), Some(ImageRule::AbsoluteUrl));
    assert_eq!(image_rejection(&tag(None, None, Some("https://example.org/a.png"))), Some(ImageRule::AbsoluteUrl));
    // The site's name without the word logo, and the word without the name, are let through.
    assert_eq!(image_rejection(&tag(None, None, Some("//upload.example/wikipedia/commons/a.jpg"))), None);
    assert_eq!(image_rejection(&tag(None, None, Some("//upload.example/logo.png"))), None);
}

#[test]
fn image_rules_are_tried_in_order() {
    assert_eq!(
        image_rejection(&tag(Some("10"), Some("10"), Some("http://x/static/wikipedia/logo"))),
        Some(ImageRule::SmallWidth)
    );
    assert_eq!(
        image_rejection(&tag(None, None, Some("http://x/static/wikipedia/logo"))),
        Some(ImageRule::StaticAsset)
    );
    assert_eq!(
        image_rejection(&tag(None, None, Some("http://x/wikipedia/logo/math/render/svg"))),
        Some(ImageRule::SiteLogo)
    );
    assert_eq!(
        image_rejection(&tag(None, None, Some("http://x/math/render/svg"))),
        Some(ImageRule::MathRendering)
    );
}

#[test]
fn filter_image_links_on_given_elements() {
    let tags = vec![
        tag(Some("120"), None, Some("/media/pic.jpg")),
        tag(Some("40"), None, Some("/media/small.jpg")),
        tag(None, None, None),
        tag(None, Some("300"), Some("//up.example/b.png")),
    ];
    assert_eq!(
        filter_image_links(&tags),
        vec!["https:/media/pic.jpg".to_string(), "https://up.example/b.png".to_string()]
    );
}

#[test]
fn extraction_takes_links_and_images_in_document_order() {
    let body = page(
        "<a href=\"/wiki/One\"><img src=\"/img/1.png\" width=\"60\" height=\"60\"></a>\
         <img src=\"/img/tiny.png\" width=\"10\">\
         <a href=\"/wiki/Two\">two</a>\
         <img src=\"/img/2.png\">",
    );
    let result = extract_wikipedia_HTML(&body, "https://wikipedia.org/wiki/Start");
    assert_eq!(
        result,
        HTMLExtractionResult {
            relevant_page_links: vec![
                "https://wikipedia.org/wiki/One".to_string(),
                "https://wikipedia.org/wiki/Two".to_string()
            ],
            relevant_image_links: vec!["https:/img/1.png".to_string(), "https:/img/2.png".to_string()],
        }
    );
}

#[test]
fn extraction_is_the_same_for_the_same_body() {
    let body = page("<a href=\"/wiki/A\">a</a><img src=\"/i.png\"><a href=\"/wiki/B:c\">b</a><a href=\"/wiki/C\">c</a>");
    let first = extract_wikipedia_HTML(&body, "u");
    let second = extract_wikipedia_HTML(&body, "another address");
    assert_eq!(first, second);
    assert_eq!(first.relevant_page_links, extract_relevant_wikipedia_links(&body));
}

#[test]
fn extraction_of_an_empty_body_is_empty() {
    let result = extract_wikipedia_HTML("", "u");
    assert!(result.relevant_page_links.is_empty());
    assert!(result.relevant_image_links.is_empty());
    assert!(extract_relevant_wikipedia_links("").is_empty());
}

#[test]
fn extract_from_elements_joins_both_filters() {
    let hrefs = vec![Some("/wiki/A".to_string()), Some("/wiki/A#b".to_string())];
    let tags = vec![tag(None, None, Some("/p.jpg"))];
    let result = extract_from_elements(&hrefs, &tags);
    assert_eq!(result.relevant_page_links, vec!["https://wikipedia.org/wiki/A".to_string()]);
    assert_eq!(result.relevant_image_links, vec!["https:/p.jpg".to_string()]);
}

#[test]
fn info_text_lists_links_and_images() {
    let result = HTMLExtractionResult {
        relevant_page_links: vec!["https://wikipedia.org/wiki/A".to_string(), "https://wikipedia.org/wiki/B".to_string()],
        relevant_image_links: vec!["https:/a.jpg".to_string()],
    };
    assert_eq!(
        result.info_text(),
        "Relevant Page Links: \nhttps://wikipedia.org/wiki/A\nhttps://wikipedia.org/wiki/B\nRelevant Image Links \nhttps:/a.jpg\n"
    );
    let empty = HTMLExtractionResult { relevant_page_links: vec![], relevant_image_links: vec![] };
    assert_eq!(empty.info_text(), "Relevant Page Links: \nRelevant Image Links \n");
}

#[test]
fn content_page_shows_every_image() {
    let result = HTMLExtractionResult {
        relevant_page_links: vec!["https://wikipedia.org/wiki/A".to_string()],
        relevant_image_links: vec!["https:/a.jpg".to_string(), "https://b.example/c.png".to_string()],
    };
    assert_eq!(result.make_content_html(), "<img src='https:/a.jpg'><img src='https://b.example/c.png'>");
    let empty = HTMLExtractionResult { relevant_page_links: vec![], relevant_image_links: vec![] };
    assert_eq!(empty.make_content_html(), "");
}

#[test]
fn body_length_is_counted_in_bytes() {
    assert_eq!(MAX_BODY_BYTES, 715_827_882);
    assert!(is_parseable(""));
    assert!(is_parseable("<a href=\"/wiki/A\">a</a>"));
    let mut body = "é".repeat(MAX_BODY_BYTES / 2);
    assert_eq!(body.len(), MAX_BODY_BYTES);
    assert!(is_parseable(&body));
    body.push('a');
    assert!(!is_parseable(&body));
}

#[test]
fn body_too_long_to_parse_gives_nothing() {
    let head = "<a href=\"/wiki/A\">a</a><img src=\"/p.jpg\">";
    assert_eq!(extract_relevant_wikipedia_links(head), vec!["https://wikipedia.org/wiki/A".to_string()]);
    assert_eq!(extract_wikipedia_HTML(head, "u").relevant_image_links, vec!["https:/p.jpg".to_string()]);
    let mut body = String::with_capacity(MAX_BODY_BYTES + 1);
    body.push_str(head);
    body.push_str(&" ".repeat(MAX_BODY_BYTES + 1 - head.len()));
    assert_eq!(body.len(), MAX_BODY_BYTES + 1);
    assert!(!is_parseable(&body));
    let result = extract_wikipedia_HTML(&body, "u");
    assert!(result.relevant_page_links.is_empty());
    assert!(result.relevant_image_links.is_empty());
    assert!(extract_relevant_wikipedia_links(&body).is_empty());
}
