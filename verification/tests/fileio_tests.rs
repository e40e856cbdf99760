use hyper::fileio::{
    check_read, check_write, chunk, into_string, logical_position, next_line, options_for_mode,
    seek_target, FileMode, LineStep, SeekTarget,
};

#[test]
fn invalid_mode_is_rejected() {
    assert!(options_for_mode("q").is_err());
    assert_eq!(options_for_mode("qb").unwrap_err(), "invalid file mode 'q'");
    assert_eq!(options_for_mode("rw").unwrap_err(), "invalid file mode 'rw'");
}

#[test]
fn modes_choose_read_and_write() {
    let read = options_for_mode("r").unwrap();
    assert!(read.readable && !read.writable && !read.create);
    assert_eq!(options_for_mode("").unwrap(), read);
    assert_eq!(options_for_mode("rb").unwrap(), read);
    let write = options_for_mode("w").unwrap();
    assert_eq!(
        write,
        FileMode {
            readable: false,
            writable: true,
            write: true,
            append: false,
            create: true,
            truncate: true,
            create_new: false,
        }
    );
    let append = options_for_mode("a+").unwrap();
    assert!(append.readable && append.writable && append.append && append.create && !append.truncate);
    assert_eq!(options_for_mode("+a").unwrap(), append);
    let exclusive = options_for_mode("xt").unwrap();
    assert!(exclusive.create_new && !exclusive.readable);
    assert!(options_for_mode("r+").unwrap().writable);
}

#[test]
fn bytes_become_text() {
    assert_eq!(into_string(b"plain".to_vec()), "plain");
    assert_eq!(into_string("é".as_bytes().to_vec()), "é");
    assert_eq!(into_string(vec![b'a', 0xff, b'b']), "a\u{FFFD}b");
}

#[test]
fn chunks_are_clamped_to_the_mapping() {
    let bytes = b"hello world";
    assert_eq!(chunk(bytes, 0, 5), "hello");
    assert_eq!(chunk(bytes, 6, 100), "world");
    assert_eq!(chunk(bytes, 11, 3), "");
    assert_eq!(chunk(bytes, 40, 3), "");
    assert_eq!(chunk(bytes, 3, usize::MAX), "lo world");
    assert_eq!(chunk(&[], 0, 8), "");
}

#[test]
fn readline_strips_the_line_break() {
    assert_eq!(
        next_line(b"first\r\nsecond", false),
        LineStep::Line { text: "first".to_string(), used: 7 }
    );
    assert_eq!(next_line(b"partial", false), LineStep::NeedMore);
    assert_eq!(
        next_line(b"last\r", true),
        LineStep::Line { text: "last".to_string(), used: 5 }
    );
    assert_eq!(next_line(b"", true), LineStep::End);
    assert_eq!(next_line(b"\n", true), LineStep::Line { text: String::new(), used: 1 });
}

#[test]
fn handles_refuse_the_wrong_direction() {
    let read = options_for_mode("r").unwrap();
    assert_eq!(check_read(false, "r", read), Ok(()));
    assert_eq!(
        check_write(false, "r", read).unwrap_err(),
        "file is not open for writing (mode 'r')"
    );
    assert_eq!(check_write(true, "w", options_for_mode("w").unwrap()).unwrap_err(), "I/O operation on closed file");
    assert_eq!(
        check_read(false, "a", options_for_mode("a").unwrap()).unwrap_err(),
        "file is not open for reading (mode 'a')"
    );
}

#[test]
fn tell_and_seek_positions() {
    assert_eq!(logical_position(100, 5, 20), 85);
    assert_eq!(logical_position(u64::MAX, 5, 1), u64::MAX - 1);
    assert_eq!(seek_target(-3, 0), SeekTarget::Start(0));
    assert_eq!(seek_target(7, 0), SeekTarget::Start(7));
    assert_eq!(seek_target(-3, 1), SeekTarget::Current(-3));
    assert_eq!(seek_target(-3, 2), SeekTarget::End(-3));
}
