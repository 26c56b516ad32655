//! What is sent to the image index for one image.

use vstd::prelude::*;

verus! {

/// The body of the request that reports the image at `image_url`, found on
/// the page at `page_url`: a JSON object with the two addresses, put in as
/// they are.
pub open spec fn notification_body(image_url: Seq<char>, page_url: Seq<char>) -> Seq<char> {
    "{\"image_url\": \""@ + image_url + "\", \"page_url\": \""@ + page_url + "\"}"@
}

/// The body of the request that reports one image.
pub fn image_notification_body(image_url: &str, page_url: &str) -> (body: String)
    ensures
        body@ == notification_body(image_url@, page_url@),
{
    let mut body = String::from_str("{\"image_url\": \"");
    body.append(image_url);
    body.append("\", \"page_url\": \"");
    body.append(page_url);
    body.append("\"}");
    body
}

} // verus!
