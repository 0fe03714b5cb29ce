use bugstalker::debugger::debugee::ldd::parse_ldd_output;
use std::path::PathBuf;

#[test]
fn test_ldd_output_parsing() {
    struct TestCase {
        ldd_output: &'static str,
        expected: Vec<PathBuf>,
    }
    let test_cases = [
        TestCase {
            ldd_output: "	linux-vdso.so.1 (0x00007ffd69ff4000)
	libgcc_s.so.1 => /lib/x86_64-linux-gnu/libgcc_s.so.1 (0x00007f66730e7000)
	libc.so.6 => /lib/x86_64-linux-gnu/libc.so.6 (0x00007f6672e00000)
	/lib64/ld-linux-x86-64.so.2 (0x00007f66732b3000)
",
            expected: vec![
                PathBuf::from("linux-vdso.so.1"),
                PathBuf::from("/lib/x86_64-linux-gnu/libgcc_s.so.1"),
                PathBuf::from("/lib/x86_64-linux-gnu/libc.so.6"),
                PathBuf::from("/lib64/ld-linux-x86-64.so.2"),
            ],
        },
        TestCase {
            ldd_output: "/lib/x86_64-linux-gnu/libc.so.6
	/lib64/ld-linux-x86-64.so.2
",
            expected: vec![
                PathBuf::from("/lib/x86_64-linux-gnu/libc.so.6"),
                PathBuf::from("/lib64/ld-linux-x86-64.so.2"),
            ],
        },
    ];

    for tc in test_cases {
        let result: Vec<PathBuf> = parse_ldd_output(tc.ldd_output)
            .into_iter()
            .map(PathBuf::from)
            .collect();
        assert_eq!(result, tc.expected);
    }
}

#[test]
fn ldd_output_empty_and_blank_lines() {
    assert_eq!(parse_ldd_output(""), Vec::<String>::new());
    assert_eq!(parse_ldd_output("\n   \n\t\n"), Vec::<String>::new());
    assert_eq!(parse_ldd_output("a.so =>\n"), Vec::<String>::new());
}

#[test]
fn ldd_output_crlf_and_no_final_newline() {
    assert_eq!(
        parse_ldd_output("libm.so.6 => /lib/libm.so.6 (0x1)\r\nlibx.so"),
        vec!["/lib/libm.so.6".to_string(), "libx.so".to_string()]
    );
}

#[test]
fn ldd_output_several_arrows_take_last() {
    assert_eq!(parse_ldd_output("a => b => c d"), vec!["c".to_string()]);
}
