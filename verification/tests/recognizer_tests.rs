use h1core::error::UriSegmentError;
use h1core::recognizer::{from_param, parse, RouteRecognizer};

fn parse_re(pattern: &str) -> String {
    let (re, _) = parse(pattern.as_bytes()).unwrap();
    String::from_utf8(re).unwrap()
}

fn assert_parse(pattern: &str, expected_re: &str) -> regex::Regex {
    let re_str = parse_re(pattern);
    assert_eq!(&re_str, expected_re);
    regex::Regex::new(&re_str).unwrap()
}

#[test]
fn test_path_buf() {
    assert_eq!(from_param(b"/test/.tt"), Err(UriSegmentError::BadStart('.')));
    assert_eq!(from_param(b"/test/*tt"), Err(UriSegmentError::BadStart('*')));
    assert_eq!(from_param(b"/test/tt:"), Err(UriSegmentError::BadEnd(':')));
    assert_eq!(from_param(b"/test/tt<"), Err(UriSegmentError::BadEnd('<')));
    assert_eq!(from_param(b"/test/tt>"), Err(UriSegmentError::BadEnd('>')));
    assert_eq!(
        from_param(b"/seg1/seg2/"),
        Ok(vec![b"seg1".to_vec(), b"seg2".to_vec()])
    );
    assert_eq!(from_param(b"/seg1/../seg2/"), Ok(vec![b"seg2".to_vec()]));
}

#[test]
fn test_recognizer() {
    let mut rec = RouteRecognizer::<usize>::default();

    let routes = vec![
        (b"/name".to_vec(), 1),
        (b"/name/{val}".to_vec(), 2),
        (b"/name/{val}/index.html".to_vec(), 3),
        (b"/v{val}/{val2}/index.html".to_vec(), 4),
        (b"/v/{tail:*}".to_vec(), 5),
    ];
    assert!(rec.set_routes(routes));

    let (params, val) = rec.recognize(b"/name").unwrap();
    assert_eq!(*val, 1);
    assert!(params.unwrap().is_empty());

    let (params, val) = rec.recognize(b"/name/value").unwrap();
    assert_eq!(*val, 2);
    assert!(!params.as_ref().unwrap().is_empty());
    assert_eq!(params.as_ref().unwrap().get("val").unwrap(), b"value");

    let (params, val) = rec.recognize(b"/name/value2/index.html").unwrap();
    assert_eq!(*val, 3);
    assert!(!params.as_ref().unwrap().is_empty());
    assert_eq!(params.as_ref().unwrap().get("val").unwrap(), b"value2");
    assert_eq!(params.as_ref().unwrap().by_idx(0).unwrap(), b"value2");

    let (params, val) = rec.recognize(b"/vtest/ttt/index.html").unwrap();
    assert_eq!(*val, 4);
    assert!(!params.as_ref().unwrap().is_empty());
    assert_eq!(params.as_ref().unwrap().get("val").unwrap(), b"test");
    assert_eq!(params.as_ref().unwrap().get("val2").unwrap(), b"ttt");
    assert_eq!(params.as_ref().unwrap().by_idx(0).unwrap(), b"test");
    assert_eq!(params.as_ref().unwrap().by_idx(1).unwrap(), b"ttt");

    let (params, val) = rec.recognize(b"/v/blah-blah/index.html").unwrap();
    assert_eq!(*val, 5);
    assert!(!params.as_ref().unwrap().is_empty());
    assert_eq!(
        params.as_ref().unwrap().get("tail").unwrap(),
        b"blah-blah/index.html"
    );
}

#[test]
fn test_parse_static() {
    let re = assert_parse("/", r"^/$");
    assert!(re.is_match("/"));
    assert!(!re.is_match("/a"));

    let re = assert_parse("/name", r"^/name$");
    assert!(re.is_match("/name"));
    assert!(!re.is_match("/name1"));
    assert!(!re.is_match("/name/"));
    assert!(!re.is_match("/name~"));

    let re = assert_parse("/name/", r"^/name/$");
    assert!(re.is_match("/name/"));
    assert!(!re.is_match("/name"));
    assert!(!re.is_match("/name/gs"));

    let re = assert_parse("/user/profile", r"^/user/profile$");
    assert!(re.is_match("/user/profile"));
    assert!(!re.is_match("/user/profile/profile"));
}

#[test]
fn test_parse_param() {
    let re = assert_parse("/user/{id}", r"^/user/(?P<id>[^/]+)$");
    assert!(re.is_match("/user/profile"));
    assert!(re.is_match("/user/2345"));
    assert!(!re.is_match("/user/2345/"));
    assert!(!re.is_match("/user/2345/sdg"));

    let captures = re.captures("/user/profile").unwrap();
    assert_eq!(captures.get(1).unwrap().as_str(), "profile");
    assert_eq!(captures.name("id").unwrap().as_str(), "profile");

    let captures = re.captures("/user/1245125").unwrap();
    assert_eq!(captures.get(1).unwrap().as_str(), "1245125");
    assert_eq!(captures.name("id").unwrap().as_str(), "1245125");

    let re = assert_parse(
        "/v{version}/resource/{id}",
        r"^/v(?P<version>[^/]+)/resource/(?P<id>[^/]+)$",
    );
    assert!(re.is_match("/v1/resource/320120"));
    assert!(!re.is_match("/v/resource/1"));
    assert!(!re.is_match("/resource"));

    let captures = re.captures("/v151/resource/adahg32").unwrap();
    assert_eq!(captures.get(1).unwrap().as_str(), "151");
    assert_eq!(captures.name("version").unwrap().as_str(), "151");
    assert_eq!(captures.name("id").unwrap().as_str(), "adahg32");
}

#[test]
fn test_tail_param() {
    let re = assert_parse(
        "/user/{tail:*}",
        r"^/user/(?P<tail>[%/[:word:][:punct:][:space:]]+)$",
    );
    assert!(re.is_match("/user/profile"));
    assert!(re.is_match("/user/2345"));
    assert!(re.is_match("/user/2345/"));
    assert!(re.is_match("/user/2345/sdg"));
    assert!(re.is_match("/user/2345/sd-_g/"));
    assert!(re.is_match("/user/2345/sdg/asddsasd/index.html"));

    let re = assert_parse(
        "/user/v{tail:*}",
        r"^/user/v(?P<tail>[%/[:word:][:punct:][:space:]]+)$",
    );
    assert!(!re.is_match("/user/2345/"));
    assert!(re.is_match("/user/vprofile"));
    assert!(re.is_match("/user/v_2345"));
    assert!(re.is_match("/user/v2345/sdg"));
    assert!(re.is_match("/user/v2345/sd-_g/test.html"));
    assert!(re.is_match("/user/v/sdg/asddsasd/index.html"));
}

#[test]
fn test_tail_must_be_last() {
    assert!(parse(b"/user/{tail:*}/more").is_none());
}
