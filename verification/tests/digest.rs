use inline_preview::hash::{feed_offset, fragment_hash, hex16, ByteOrder};
use inline_preview::paths::{join_path, parent_of, with_extension};
use inline_preview::previews::selection_fingerprint;
use inline_preview::ranges::OffsetRange;
use std::collections::hash_map::DefaultHasher;
use std::hash::{Hash, Hasher};
use std::path::{Path, PathBuf};

#[test]
fn fragment_hash_is_the_std_hash_in_hex() {
    for text in ["", "a", "$E=mc^2$", "äöü€𝛼", "a longer fragment than one block of a hash"] {
        let mut hasher = DefaultHasher::new();
        text.hash(&mut hasher);
        assert_eq!(fragment_hash(text), format!("{:016x}", hasher.finish()));
    }
    assert_ne!(fragment_hash("a"), fragment_hash("b"));
}

#[test]
fn numbers_have_sixteen_digits() {
    assert_eq!(hex16(0), "0000000000000000");
    assert_eq!(hex16(0x0123_4567_89ab_cdef), "0123456789abcdef");
    assert_eq!(hex16(u64::MAX), "ffffffffffffffff");
}

#[test]
fn the_fingerprint_is_the_std_hash_of_the_ranges() {
    let selections = vec![OffsetRange { start: 3, end: 9 }, OffsetRange { start: 12, end: 12 }];
    let mut hasher = DefaultHasher::new();
    (3usize..9).hash(&mut hasher);
    (12usize..12).hash(&mut hasher);
    let native = if 1u16.to_ne_bytes() == 1u16.to_le_bytes() {
        ByteOrder::Little
    } else {
        ByteOrder::Big
    };
    assert_eq!(selection_fingerprint(&selections, native), hasher.finish());
    assert_eq!(selection_fingerprint(&vec![], native), DefaultHasher::new().finish());
    assert_ne!(
        selection_fingerprint(&selections, native),
        selection_fingerprint(&vec![], native)
    );
}

#[test]
fn offsets_are_fed_in_the_byte_order_of_the_machine() {
    let offset: usize = 0x0102_0304;
    let bytes = [(ByteOrder::Little, offset.to_le_bytes()), (ByteOrder::Big, offset.to_be_bytes())];
    for (order, bytes) in bytes {
        let mut expected = DefaultHasher::new();
        expected.write(&bytes);
        let mut hasher = DefaultHasher::new();
        feed_offset(offset, order, &mut hasher);
        assert_eq!(hasher.finish(), expected.finish());
    }
}

#[test]
fn paths_are_those_of_std() {
    for path in ["/tmp/x/latex_0.tex", "/a.tex", "a.tex", "a//b.c.tex", "x/noext", "x/.hidden"] {
        let parent = Path::new(path).parent().unwrap();
        assert_eq!(parent_of(path).unwrap(), parent.to_str().unwrap());
        let renamed = Path::new(path).with_extension("dvi");
        assert_eq!(with_extension(path, "dvi"), renamed.to_str().unwrap());
    }
    for dir in ["/tmp/x", "/tmp/x/", "", "/"] {
        for name in ["a.b", "", "/a", "./a"] {
            assert_eq!(join_path(dir, name), Path::new(dir).join(name).to_str().unwrap());
        }
    }
}

#[test]
fn unusual_paths_are_those_of_std() {
    let paths = [
        "", "/", "//", ".", "./", "./.", "..", "../", "/.", "/./", "/..", "a/b/", "a/b//", "a/.",
        "a/./", "a/..", "a/./x.tex", "a/./.", "./a", "./a.tex", ".//a.tex", "/./a.tex", "//a.tex",
        "a.tex/", "a.tex//.", "a.tex/..", ".a/.b", "a.", "a..", "...", "a/...", "a.b.c", "ä/ö.tex",
        ".tex", ".a.tex", "x/../y.tex", " ", "./..", "a///", "a/.b/.",
    ];
    for path in paths {
        let parent = Path::new(path).parent().map(|parent| parent.to_str().unwrap().to_string());
        assert_eq!(parent_of(path), parent, "{:?}", path);
        for extension in ["dvi", "", "a.b"] {
            let renamed = Path::new(path).with_extension(extension);
            let renamed = renamed.to_str().unwrap();
            assert_eq!(with_extension(path, extension), renamed, "{:?}", path);
        }
    }
}

#[test]
fn all_short_paths_are_those_of_std() {
    let parts = ["/", ".", "a"];
    for code in 0..3usize.pow(7) {
        for len in 0..=7 {
            let path: String =
                (0..len).map(|i| parts[code / 3usize.pow(i) % 3]).collect();
            let expected = Path::new(&path).parent().map(|parent| parent.to_str().unwrap());
            assert_eq!(parent_of(&path).as_deref(), expected, "{:?}", path);
            let mut renamed = PathBuf::from(&path);
            renamed.set_extension("dvi");
            assert_eq!(with_extension(&path, "dvi"), renamed.to_str().unwrap(), "{:?}", path);
        }
    }
}
