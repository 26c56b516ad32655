use wiki_crawler::crawl::notify::image_notification_body;

#[test]
fn body_names_the_image_and_its_page() {
    assert_eq!(
        image_notification_body("https://up.example/a.jpg", "https://wikipedia.org/wiki/A"),
        "{\"image_url\": \"https://up.example/a.jpg\", \"page_url\": \"https://wikipedia.org/wiki/A\"}"
    );
}

#[test]
fn body_of_empty_addresses() {
    assert_eq!(image_notification_body("", ""), "{\"image_url\": \"\", \"page_url\": \"\"}");
}
