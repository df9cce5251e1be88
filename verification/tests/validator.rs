use filedrop::name::is_valid_name;

#[test]
fn test_regex() {
    assert!(is_valid_name("my_av_1-9.mp4"));
    assert!(is_valid_name("my_av_1-9.mp4.jpg"));
    assert!(is_valid_name(".anan"));
    assert!(is_valid_name(".tonight.fun.av"));
    assert!(is_valid_name("oh---good____"));
    assert!("!#$%&'()=~^|@`{[]}:*;+<>,/?\"\\ あいアイ愛¥".chars().all(|c| {
        !is_valid_name(&c.to_string())
    }));
    assert!(!is_valid_name("..oh...good"));
    assert!(!is_valid_name("."));
    assert!(!is_valid_name(""));
    assert!(!is_valid_name("my_av_1-9.mp_4"));
    assert!(!is_valid_name("my_av_1-9.mp-4"));
    assert!(!is_valid_name("my_av_1-9."));
}

#[test]
fn accepts_ordinary_and_dotfile_names() {
    assert!(is_valid_name("report.pdf"));
    assert!(is_valid_name("archive.tar.gz"));
    assert!(is_valid_name(".gitignore"));
    assert!(is_valid_name(".a.b.c"));
    assert!(is_valid_name("a"));
    assert!(is_valid_name("-leading-hyphen_and_underscore-"));
    assert!(is_valid_name("photo_copy0.jpg"));
}

#[test]
fn rejects_unsafe_names() {
    assert!(!is_valid_name(".."));
    assert!(!is_valid_name("../etc/passwd"));
    assert!(!is_valid_name("a/b"));
    assert!(!is_valid_name("a\\b"));
    assert!(!is_valid_name("a b"));
    assert!(!is_valid_name("a..b"));
    assert!(!is_valid_name("a."));
    // extension suffixes take alphanumerics only
    assert!(!is_valid_name("a.b_c"));
    assert!(!is_valid_name("a.b-c"));
}

#[test]
fn validation_is_repeatable() {
    for s in ["report.pdf", "..", ".bashrc", "", "my_av_1-9.mp_4"] {
        let first = is_valid_name(s);
        let second = is_valid_name(s);
        assert_eq!(first, second);
    }
}
