use multipart::disposition::{
    Charset, ContentDisposition, DispositionParam, DispositionType, ExtendedValue,
};

#[test]
fn test_parse_header() {
    let a = "";
    assert!(ContentDisposition::parse_header(a).is_err());

    let a = "form-data; dummy=3; name=upload;\r\n filename=\"sample.png\"";
    let a: ContentDisposition = ContentDisposition::parse_header(a).unwrap();
    let b = ContentDisposition {
        disposition: DispositionType::FormData,
        parameters: vec![
            DispositionParam::Unknown("dummy".to_owned(), "3".to_owned()),
            DispositionParam::Name("upload".to_owned()),
            DispositionParam::Filename("sample.png".to_owned()),
        ],
    };
    assert_eq!(a, b);

    let a = "attachment; filename=\"image.jpg\"";
    let a: ContentDisposition = ContentDisposition::parse_header(a).unwrap();
    let b = ContentDisposition {
        disposition: DispositionType::Attachment,
        parameters: vec![DispositionParam::Filename("image.jpg".to_owned())],
    };
    assert_eq!(a, b);

    let a = "attachment; filename*=UTF-8''%c2%a3%20and%20%e2%82%ac%20rates";
    let a: ContentDisposition = ContentDisposition::parse_header(a).unwrap();
    let b = ContentDisposition {
        disposition: DispositionType::Attachment,
        parameters: vec![DispositionParam::FilenameExt(ExtendedValue {
            charset: Charset::Ext(String::from("UTF-8")),
            language_tag: None,
            value: vec![
                0xc2, 0xa3, 0x20, b'a', b'n', b'd', 0x20, 0xe2, 0x82, 0xac, 0x20, b'r', b'a',
                b't', b'e', b's',
            ],
        })],
    };
    assert_eq!(a, b);
}

#[test]
fn test_display() {
    let as_string = "attachment; filename*=UTF-8'en'%C2%A3%20and%20%E2%82%AC%20rates";
    let a: ContentDisposition = ContentDisposition::parse_header(as_string).unwrap();
    let display_rendered = a.render();
    assert_eq!(as_string, display_rendered);

    let a: ContentDisposition =
        ContentDisposition::parse_header("attachment; filename*=UTF-8''black%20and%20white.csv")
            .unwrap();
    let display_rendered = a.render();
    assert_eq!("attachment; filename=\"black and white.csv\"".to_owned(), display_rendered);

    let a: ContentDisposition =
        ContentDisposition::parse_header("attachment; filename=colourful.csv").unwrap();
    let display_rendered = a.render();
    assert_eq!("attachment; filename=\"colourful.csv\"".to_owned(), display_rendered);
}

// Round trip: parsing a form-data disposition with a name and a quoted
// file name and re-rendering it yields the same field name and file
// name.
#[test]
fn test_form_data_round_trip() {
    let original = "form-data; name=upload; filename=\"sample.png\"";
    let parsed = ContentDisposition::parse_header(original).unwrap();
    assert!(parsed.is_form_data());
    assert_eq!(parsed.get_name(), Some("upload"));
    assert_eq!(parsed.get_filename(), Some("sample.png"));

    let rendered = parsed.render();
    assert_eq!(rendered, original);
    let reparsed = ContentDisposition::parse_header(rendered.as_str()).unwrap();
    assert_eq!(reparsed.get_name(), Some("upload"));
    assert_eq!(reparsed.get_filename(), Some("sample.png"));
}

#[test]
fn test_accessors() {
    let cd = ContentDisposition::parse_header(
        "form-data; name=upload; filename=\"a.txt\"; x=\"1\"; y*=UTF-8''%41",
    )
    .unwrap();
    assert!(cd.is_form_data());
    assert!(!cd.is_inline());
    assert!(!cd.is_attachment());
    assert!(!cd.is_ext("form-data"));
    assert_eq!(cd.get_name(), Some("upload"));
    assert_eq!(cd.get_filename(), Some("a.txt"));
    assert!(cd.get_filename_ext().is_none());
    assert_eq!(cd.get_unknown("X"), Some("1"));
    assert!(cd.get_unknown("z").is_none());
    let ev = cd.get_unknown_ext("Y").unwrap();
    assert_eq!(ev.value, b"A".to_vec());
    assert!(cd.get_unknown_ext("x").is_none());

    let params = &cd.parameters;
    assert!(params[0].is_name());
    assert_eq!(params[0].as_name(), Some("upload"));
    assert!(params[1].is_filename());
    assert_eq!(params[1].as_filename(), Some("a.txt"));
    assert!(params[2].is_unknown("x"));
    assert_eq!(params[2].as_unknown("x"), Some("1"));
    assert!(!params[2].is_unknown_ext("x"));
    assert!(params[3].is_unknown_ext("y"));
    assert!(params[3].as_unknown_ext("y").is_some());
    assert!(!params[3].is_filename_ext());

    let cd = ContentDisposition::parse_header("inline").unwrap();
    assert!(cd.is_inline());
    let cd = ContentDisposition::parse_header("X-Custom; a=b").unwrap();
    assert!(cd.is_ext("x-custom"));
    assert!(!cd.is_ext("other"));

    let cd = ContentDisposition::parse_header(
        "attachment; filename*=UTF-8''%c3%a9.txt",
    )
    .unwrap();
    let ev = cd.get_filename_ext().unwrap();
    assert_eq!(ev.charset, Charset::Ext("UTF-8".to_owned()));
    assert_eq!(ev.value, vec![0xc3, 0xa9, b'.', b't', b'x', b't']);
    assert!(cd.parameters[0].as_filename_ext().is_some());
    assert!(cd.parameters[0].is_filename_ext());
}

#[test]
fn test_parse_errors() {
    // A section without an equals sign is malformed.
    assert!(ContentDisposition::parse_header("form-data; name").is_err());
    // A malformed extended value is rejected.
    assert!(ContentDisposition::parse_header("attachment; filename*=UTF-8").is_err());
    assert!(ContentDisposition::parse_header("attachment; filename*='en'%41").is_err());
    assert!(ContentDisposition::parse_header("attachment; filename*=UTF-8''%4").is_err());
    assert!(ContentDisposition::parse_header("attachment; filename*=UTF-8''%4x").is_err());
}

#[test]
fn test_escape_round_trip() {
    let cd = ContentDisposition {
        disposition: DispositionType::Attachment,
        parameters: vec![DispositionParam::Filename("a\"b\\c.txt".to_owned())],
    };
    let rendered = cd.render();
    assert_eq!(rendered, "attachment; filename=\"a\\\"b\\\\c.txt\"");
    let reparsed = ContentDisposition::parse_header(rendered.as_str()).unwrap();
    assert_eq!(reparsed.get_filename(), Some("a\"b\\c.txt"));
}

#[test]
fn test_header_name() {
    assert_eq!(ContentDisposition::header_name(), "Content-Disposition");
}
