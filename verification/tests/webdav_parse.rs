use cachewarm::models::FileEntry;
use cachewarm::webdav::{
    metadata_from_entries, parse_propfind_response, process_webdav_entry, webdav_request_path,
    PROPFIND_BODY,
};

fn multistatus(responses: &str) -> String {
    format!(
        "<?xml version=\"1.0\" encoding=\"utf-8\"?>\
         <D:multistatus xmlns:D=\"DAV:\">{}</D:multistatus>",
        responses
    )
}

fn response(href: &str, props: &str) -> String {
    format!(
        "<D:response><D:href>{}</D:href><D:propstat><D:prop>{}</D:prop>\
         <D:status>HTTP/1.1 200 OK</D:status></D:propstat></D:response>",
        href, props
    )
}

#[test]
fn listing_filters_out_the_collection_itself() {
    let xml = multistatus(&format!(
        "{}{}{}",
        response("/dav/docs/", "<D:resourcetype><D:collection/></D:resourcetype>"),
        response(
            "/dav/docs/a.txt",
            "<D:getcontentlength>12</D:getcontentlength><D:resourcetype/>"
        ),
        response("/dav/docs/sub/", "<D:resourcetype><D:collection/></D:resourcetype>"),
    ));
    let entries = parse_propfind_response(&xml, "/dav/docs", "/dav/docs").unwrap();
    assert_eq!(entries.len(), 2);

    assert_eq!(entries[0].name, "a.txt");
    assert_eq!(entries[0].path, "/dav/docs/a.txt");
    assert!(!entries[0].is_dir);
    assert_eq!(entries[0].size, Some(12));

    assert_eq!(entries[1].name, "sub");
    assert_eq!(entries[1].path, "/dav/docs/sub");
    assert!(entries[1].is_dir);
    assert_eq!(entries[1].size, None);
}

#[test]
fn hrefs_are_percent_decoded() {
    let xml = multistatus(&format!(
        "{}{}",
        response("/dav/", "<D:resourcetype><D:collection/></D:resourcetype>"),
        response("/dav/my%20file.txt", "<D:getcontentlength>3</D:getcontentlength>"),
    ));
    let entries = parse_propfind_response(&xml, "/", "/dav/").unwrap();
    assert_eq!(entries.len(), 1);
    assert_eq!(entries[0].name, "my file.txt");
    assert_eq!(entries[0].path, "/my file.txt");
}

#[test]
fn last_modified_becomes_unix_seconds() {
    let xml = multistatus(&response(
        "/dav/epoch.txt",
        "<D:getcontentlength>1</D:getcontentlength>\
         <D:getlastmodified>Thu, 01 Jan 1970 00:00:10 GMT</D:getlastmodified>",
    ));
    let entries = parse_propfind_response(&xml, "/", "/dav").unwrap();
    assert_eq!(entries.len(), 1);
    assert_eq!(entries[0].modified_time, 10);
}

#[test]
fn missing_date_reads_as_epoch() {
    let xml = multistatus(&response("/dav/x", "<D:resourcetype/>"));
    let entries = parse_propfind_response(&xml, "/", "/dav").unwrap();
    assert_eq!(entries[0].modified_time, 0);
}

#[test]
fn collection_never_carries_a_size() {
    let xml = multistatus(&response(
        "/dav/d/",
        "<D:getcontentlength>4096</D:getcontentlength>\
         <D:resourcetype><D:collection/></D:resourcetype>",
    ));
    let entries = parse_propfind_response(&xml, "/", "/dav").unwrap();
    assert_eq!(entries.len(), 1);
    assert!(entries[0].is_dir);
    assert_eq!(entries[0].size, None);
}

#[test]
fn malformed_xml_is_an_error() {
    assert!(parse_propfind_response("<D:multistatus><broken", "/", "/dav").is_err());
}

#[test]
fn error_discards_entries_parsed_before_it() {
    // a complete response followed by a syntax error: the whole
    // parse fails and the accumulated entry is not returned
    let xml = format!(
        "<D:multistatus xmlns:D=\"DAV:\">{}<broken",
        response("/dav/a.txt", "<D:getcontentlength>1</D:getcontentlength>")
    );
    assert!(parse_propfind_response(&xml, "/", "/dav").is_err());
}

#[test]
fn empty_document_yields_no_entries() {
    let entries = parse_propfind_response("", "/", "/dav").unwrap();
    assert!(entries.is_empty());
}

#[test]
fn process_entry_skips_base_and_empty_names() {
    assert!(process_webdav_entry("/dav/docs/", "/dav/docs", true, None, None, "/base").is_none());
    assert!(process_webdav_entry("///", "/x", false, None, None, "/base").is_none());
    assert!(process_webdav_entry("/base", "/x", false, None, None, "/base").is_none());
    assert!(process_webdav_entry("/base/", "/x", false, None, None, "/base/").is_none());

    let e: FileEntry =
        process_webdav_entry("/dav/docs/b.bin", "/dav/docs", false, Some(9), Some(77), "/base")
            .unwrap();
    assert_eq!(e.name, "b.bin");
    assert_eq!(e.path, "/dav/docs/b.bin");
    assert_eq!(e.size, Some(9));
    assert_eq!(e.modified_time, 77);
}

#[test]
fn request_path_joins_base_url_and_virtual_path() {
    assert_eq!(webdav_request_path("/dav/", "/a b.txt"), "/dav/a b.txt");
    assert_eq!(webdav_request_path("/dav", "sub/x"), "/dav/sub/x");
    assert_eq!(webdav_request_path("", "/x"), "/x");
}

#[test]
fn metadata_takes_the_last_entry() {
    let xml = multistatus(&response("/dav/one.txt", "<D:getcontentlength>5</D:getcontentlength>"));
    let entries = parse_propfind_response(&xml, "", "/dav").unwrap();
    let e = metadata_from_entries(entries).unwrap();
    assert_eq!(e.name, "one.txt");
    assert_eq!(e.size, Some(5));

    assert!(metadata_from_entries(Vec::new()).is_none());
}

#[test]
fn metadata_of_the_server_root_is_filtered_out() {
    // a depth-0 PROPFIND on the tree root answers with the base
    // collection itself, which normalization always skips
    let xml = multistatus(&response("/dav/", "<D:resourcetype><D:collection/></D:resourcetype>"));
    let entries = parse_propfind_response(&xml, "", "/dav/").unwrap();
    assert!(entries.is_empty());
    assert!(metadata_from_entries(entries).is_none());
}

#[test]
fn propfind_body_requests_the_parsed_properties() {
    assert!(PROPFIND_BODY.contains("getcontentlength"));
    assert!(PROPFIND_BODY.contains("getlastmodified"));
    assert!(PROPFIND_BODY.contains("resourcetype"));
    assert!(PROPFIND_BODY.contains("displayname"));
}
