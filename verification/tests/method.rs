use ts_api::ApiMethod;

#[test]
fn method_names_are_upper_case() {
    assert_eq!(ApiMethod::Get.as_str(), "GET");
    assert_eq!(ApiMethod::Post.as_str(), "POST");
    assert_eq!(ApiMethod::Put.as_str(), "PUT");
    assert_eq!(ApiMethod::Delete.as_str(), "DELETE");
    assert_eq!(ApiMethod::Head.as_str(), "HEAD");
    assert_eq!(ApiMethod::Options.as_str(), "OPTIONS");
    assert_eq!(ApiMethod::Connect.as_str(), "CONNECT");
    assert_eq!(ApiMethod::Patch.as_str(), "PATCH");
    assert_eq!(ApiMethod::Trace.as_str(), "TRACE");
}
