use collector::decimal::{
    i32_to_string, i64_to_string, parse_i32, parse_u128, parse_u64, parse_usize, u128_to_string,
    usize_to_string,
};
use collector::path::{file_stem, join, parent};
use collector::resctrl::error::{
    ErrorKind, IoError, EACCES, EEXIST, EINVAL, ENODEV, ENOENT, ENOSPC, ENOSYS, ENOTSUP, EPERM,
    ESRCH,
};
use collector::resctrl::Error;
use collector::search::{contains, replace, starts_with, strip_prefix};
use collector::str_map::StrMap;
use collector::text::{char_is_white, fields, lines, str_eq, trim};

#[test]
fn lines_as_the_standard_library_splits_them() {
    for s in ["", "\n", "a", "a\n", "a\r\nb", "a\n\nb\n", "\r\n", "a\rb", "a\r\r\n"] {
        let expected: Vec<String> = s.lines().map(|l| l.to_string()).collect();
        assert_eq!(lines(s), expected, "{:?}", s);
    }
}

#[test]
fn fields_as_the_standard_library_splits_them() {
    for s in ["", " ", "a", " a  b\tc\n", "\u{2003}x\u{3000}y", "a\u{200b}b"] {
        let expected: Vec<String> = s.split_whitespace().map(|f| f.to_string()).collect();
        assert_eq!(fields(s), expected, "{:?}", s);
        assert_eq!(trim(s), s.trim(), "{:?}", s);
    }
}

#[test]
fn white_space_as_the_standard_library_has_it() {
    for c in '\0'..=char::MAX {
        assert_eq!(char_is_white(c), c.is_whitespace(), "{:?}", c);
    }
}

#[test]
fn numbers_as_text() {
    for n in [0, 1, -1, 10, -10, i64::MAX, i64::MIN] {
        assert_eq!(i64_to_string(n), n.to_string());
    }
    for n in [0, 7, i32::MAX, i32::MIN] {
        assert_eq!(i32_to_string(n), n.to_string());
        assert_eq!(parse_i32(&n.to_string()).unwrap(), n);
    }
    assert_eq!(usize_to_string(usize::MAX), usize::MAX.to_string());
    assert_eq!(u128_to_string(u128::MAX), u128::MAX.to_string());
}

#[test]
fn text_as_numbers() {
    for s in [
        "", "0", "00", "+1", "-1", "+", "-", "12a", " 1", "2147483647", "2147483648",
        "-2147483648", "-2147483649", "1_0", "--1", "99999999999999999999", "\u{661}",
    ] {
        match (parse_i32(s), s.parse::<i32>()) {
            (Ok(a), Ok(b)) => assert_eq!(a, b),
            (Err(a), Err(b)) => assert_eq!(a.message(), b.to_string(), "{:?}", s),
            (a, b) => panic!("{:?}: {:?} but {:?}", s, a, b),
        }
        match (parse_u64(s), s.parse::<u64>()) {
            (Ok(a), Ok(b)) => assert_eq!(a, b),
            (Err(a), Err(b)) => assert_eq!(a.message(), b.to_string(), "{:?}", s),
            (a, b) => panic!("{:?}: {:?} but {:?}", s, a, b),
        }
        match (parse_usize(s), s.parse::<usize>()) {
            (Ok(a), Ok(b)) => assert_eq!(a, b),
            (Err(a), Err(b)) => assert_eq!(a.message(), b.to_string(), "{:?}", s),
            (a, b) => panic!("{:?}: {:?} but {:?}", s, a, b),
        }
        assert_eq!(parse_u128(s).ok(), s.parse::<u128>().ok(), "{:?}", s);
    }
}

#[test]
fn substrings() {
    assert!(contains("abcabc", "cab") && !contains("abc", "ac") && contains("", ""));
    assert!(starts_with("abc", "ab") && !starts_with("ab", "abc"));
    assert_eq!(strip_prefix("Version: 1", "Version:").unwrap(), " 1");
    assert!(strip_prefix("version", "Version").is_none());
    assert_eq!(replace("aaa", "aa", "b"), "aaa".replace("aa", "b"));
    assert_eq!(replace("x.y.z", ".", "--"), "x--y--z");
    assert!(str_eq("a", "a") && !str_eq("a", "b") && !str_eq("a", "ab"));
    assert_eq!(collector::text::concat("a", "b"), "ab");
}

#[test]
fn paths_as_the_standard_library_has_them() {
    for p in [
        "", "/", "a", "/a", "a/b", "/a/b", "a/", "/a/b/", "a//b", "..", "a/..", ".", ".hidden",
        "a.b", "a.b.c", "/x/.y", "a.", "..a", "/a/./", "./a", "a/.",
    ] {
        let std_path = std::path::Path::new(p);
        assert_eq!(
            file_stem(p),
            std_path.file_stem().map(|s| s.to_string_lossy().into_owned()),
            "{:?}",
            p
        );
        assert_eq!(
            parent(p),
            std_path.parent().map(|s| s.to_string_lossy().into_owned()),
            "{:?}",
            p
        );
    }
    for (a, b) in [("/a", "b"), ("/a/", "b"), ("", "b"), ("/a", "/b"), ("/", "x"), ("a", "")] {
        let expected = std::path::Path::new(a).join(b).to_string_lossy().into_owned();
        assert_eq!(join(a, b), expected, "{:?} {:?}", a, b);
    }
}

#[test]
fn maps_from_texts() {
    let mut m: StrMap<u64> = StrMap::new();
    m.insert("a".to_string(), 1);
    m.insert("b".to_string(), 2);
    m.insert("a".to_string(), 3);
    assert_eq!(m.len(), 2);
    assert_eq!(m.get("a"), Some(&3));
    assert_eq!(m.key_at(0), "a");
    assert_eq!(m.value_at(1), &2);
    assert_eq!(m.remove("a"), Some(3));
    assert_eq!(m.remove("a"), None);
    assert!(!m.contains_key("a") && m.contains_key("b"));
    assert_eq!(m.len(), 1);
}

#[test]
fn codes_of_the_operating_system() {
    assert_eq!(
        [EPERM, ENOENT, ESRCH, EACCES, EEXIST, ENODEV, EINVAL, ENOSPC, ENOSYS, ENOTSUP],
        [
            libc::EPERM,
            libc::ENOENT,
            libc::ESRCH,
            libc::EACCES,
            libc::EEXIST,
            libc::ENODEV,
            libc::EINVAL,
            libc::ENOSPC,
            libc::ENOSYS,
            libc::ENOTSUP,
        ]
    );
    for (code, kind) in [
        (ENOENT, ErrorKind::NotFound),
        (EACCES, ErrorKind::PermissionDenied),
        (EPERM, ErrorKind::PermissionDenied),
        (EEXIST, ErrorKind::AlreadyExists),
        (EINVAL, ErrorKind::InvalidInput),
        (ESRCH, ErrorKind::Uncategorized),
        (libc::ENOTEMPTY, ErrorKind::DirectoryNotEmpty),
        (ENOSYS, ErrorKind::Unsupported),
    ] {
        assert_eq!(IoError::from_raw_os_error(code).kind(), kind);
    }
    // Each code has the kind that the standard library gives it
    for code in 0..200 {
        assert_eq!(
            format!("{:?}", IoError::from_raw_os_error(code).kind()),
            format!("{:?}", std::io::Error::from_raw_os_error(code).kind())
        );
    }
}

#[test]
fn error_messages() {
    let source = || IoError::from_raw_os_error(EACCES);
    let path = || "/p".to_string();
    assert_eq!(Error::NotMounted { root: path() }.message("c"), "resctrl not mounted at /p");
    assert_eq!(
        Error::NoPermission { path: path(), source: source() }.message("c"),
        "permission denied for /p: c"
    );
    assert_eq!(
        Error::Capacity { source: source() }.message("c"),
        "resctrl capacity exhausted: c"
    );
    assert_eq!(Error::Io { path: path(), source: source() }.message("c"), "io error at /p: c");
}
