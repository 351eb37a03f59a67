//! End-to-end tests of the parser and reader.

use syslinux_conf::{KernelFile, KernelOrConfig, Reader, ReaderError, SyslinuxConf, Warning};

fn parse_ok(input: &[u8]) -> SyslinuxConf {
    SyslinuxConf::parse(input).expect("input should parse")
}

#[test]
fn end_to_end() {
    let input = b"DEFAULT linux\nTIMEOUT 100\nLABEL linux\n  KERNEL vmlinuz\n  APPEND root=/dev/sda1\n";
    let reader =
        Reader::from_local_conf_file_path(b"/mnt".to_vec(), b"/mnt/boot/syslinux.cfg".to_vec())
            .expect("reader should build");
    let conf = reader.read(input).expect("input should read");
    assert_eq!(conf.global.default, Some("linux".to_string()));
    // Stored in deciseconds: 100 deciseconds are the 10.0 seconds of the
    // authored value.
    assert_eq!(conf.global.timeout, Some(100));
    assert_eq!(conf.global.timeout.map(|t| t as f64 / 10.0), Some(10.0));
    assert_eq!(conf.labels.len(), 1);
    let label = conf.labels.get(&"linux".to_string()).expect("label should exist");
    let KernelOrConfig::Kernel(kernel) = &label.kernel_or_config;
    assert_eq!(kernel.kernel_file, Some(KernelFile::Linux(b"/mnt/boot/vmlinuz".to_vec())));
    assert_eq!(kernel.append, Some("root=/dev/sda1".to_string()));
}

#[test]
fn timeout_zero_means_disabled() {
    let conf = parse_ok(b"TIMEOUT 0\nTOTALTIMEOUT 0\n");
    assert_eq!(conf.global.timeout, None);
    assert_eq!(conf.global.total_timeout, None);
    let conf = parse_ok(b"TIMEOUT 5\nTOTALTIMEOUT 42\n");
    assert_eq!(conf.global.timeout, Some(5));
    assert_eq!(conf.global.total_timeout, Some(42));
}

#[test]
fn conv_timeout_values() {
    assert_eq!(syslinux_conf::Global::conv_timeout(0), None);
    assert_eq!(syslinux_conf::Global::conv_timeout(7), Some(7));
}

#[test]
fn duplicate_label_keeps_first() {
    let input = b"LABEL a\nAPPEND first\nLABEL a\nAPPEND second\n";
    let conf = parse_ok(input);
    assert_eq!(conf.labels.len(), 1);
    let label = conf.labels.get(&"a".to_string()).unwrap();
    let KernelOrConfig::Kernel(kernel) = &label.kernel_or_config;
    assert_eq!(kernel.append, Some("first".to_string()));
}

#[test]
fn text_help_block_joins_trimmed_lines() {
    let input = b"LABEL l\nTEXT HELP\nLine one\n  Line two  \nENDTEXT\n";
    let conf = parse_ok(input);
    let label = conf.labels.get(&"l".to_string()).unwrap();
    assert_eq!(label.text_help, Some("Line one Line two".to_string()));
}

#[test]
fn text_help_without_terminator_is_unknown_tag() {
    let input = b"LABEL l\nTEXT HELP\nAPPEND x\n";
    let conf = parse_ok(input);
    let label = conf.labels.get(&"l".to_string()).unwrap();
    assert_eq!(label.text_help, None);
    let KernelOrConfig::Kernel(kernel) = &label.kernel_or_config;
    assert_eq!(kernel.append, Some("x".to_string()));
}

#[test]
fn kernel_type_guessed_from_extension() {
    assert_eq!(KernelFile::guess(b"foo.img".to_vec()), KernelFile::FDImage(b"foo.img".to_vec()));
    assert_eq!(KernelFile::guess(b"foo.xyz".to_vec()), KernelFile::Linux(b"foo.xyz".to_vec()));
    assert_eq!(KernelFile::guess(b"foo.c32".to_vec()), KernelFile::Com32(b"foo.c32".to_vec()));
    assert_eq!(KernelFile::guess(b"foo.bin".to_vec()), KernelFile::Boot(b"foo.bin".to_vec()));
    assert_eq!(KernelFile::guess(b"foo.bs".to_vec()), KernelFile::Boot(b"foo.bs".to_vec()));
    assert_eq!(KernelFile::guess(b"foo.bss".to_vec()), KernelFile::BSS(b"foo.bss".to_vec()));
    assert_eq!(KernelFile::guess(b"foo.0".to_vec()), KernelFile::PXE(b"foo.0".to_vec()));
    assert_eq!(KernelFile::guess(b"foo.cbt".to_vec()), KernelFile::ComBoot(b"foo.cbt".to_vec()));
    assert_eq!(KernelFile::guess(b"foo.com".to_vec()), KernelFile::ComBoot(b"foo.com".to_vec()));
    assert_eq!(KernelFile::guess(b"vmlinuz".to_vec()), KernelFile::Linux(b"vmlinuz".to_vec()));
    assert_eq!(KernelFile::guess(b".bashrc".to_vec()), KernelFile::Linux(b".bashrc".to_vec()));
    assert_eq!(
        KernelFile::guess(b"dir.img/kernel".to_vec()),
        KernelFile::Linux(b"dir.img/kernel".to_vec())
    );
}

#[test]
fn kernel_tag_in_label_is_classified() {
    let conf = parse_ok(b"LABEL l\nKERNEL foo.img\n");
    let label = conf.labels.get(&"l".to_string()).unwrap();
    let KernelOrConfig::Kernel(kernel) = &label.kernel_or_config;
    assert_eq!(kernel.kernel_file, Some(KernelFile::FDImage(b"foo.img".to_vec())));
}

#[test]
fn unknown_tag_is_tolerated() {
    let input = b"LABEL l\nFOOBAR something\nAPPEND x\n";
    let conf = parse_ok(input);
    let label = conf.labels.get(&"l".to_string()).unwrap();
    let KernelOrConfig::Kernel(kernel) = &label.kernel_or_config;
    assert_eq!(kernel.append, Some("x".to_string()));
}

#[test]
fn comments_and_blank_lines_are_ignored() {
    let input = b"# a comment\n\n   \nDEFAULT linux\n  # indented comment\nLABEL linux\n\nSAY hi\n";
    let conf = parse_ok(input);
    assert_eq!(conf.global.default, Some("linux".to_string()));
    let label = conf.labels.get(&"linux".to_string()).unwrap();
    assert_eq!(label.say, Some("hi".to_string()));
}

#[test]
fn tags_match_case_insensitively() {
    let input = b"default linux\nLabel linux\nkernel foo.c32\n";
    let conf = parse_ok(input);
    assert_eq!(conf.global.default, Some("linux".to_string()));
    let label = conf.labels.get(&"linux".to_string()).unwrap();
    let KernelOrConfig::Kernel(kernel) = &label.kernel_or_config;
    assert_eq!(kernel.kernel_file, Some(KernelFile::Com32(b"foo.c32".to_vec())));
}

#[test]
fn clean_end_parses_and_trailing_garbage_fails() {
    let good = b"LABEL l\nAPPEND x\n";
    assert!(SyslinuxConf::parse(good).is_ok());
    let mut bad = good.to_vec();
    bad.push(b'g');
    assert_eq!(SyslinuxConf::parse(&bad), Err(ReaderError::TrailingDataError));
}

#[test]
fn invalid_utf8_line_is_encoding_error() {
    let input = b"SAY \xff\xfe\n";
    assert_eq!(SyslinuxConf::parse(input), Err(ReaderError::EncodingError(0)));
    let later = b"DEFAULT linux\nSAY \xff\xfe\n";
    assert_eq!(SyslinuxConf::parse(later), Err(ReaderError::EncodingError(1)));
}

#[test]
fn non_numeric_timeout_is_malformed() {
    assert_eq!(SyslinuxConf::parse(b"TIMEOUT abc\n"), Err(ReaderError::MalformedValueError(0)));
    assert_eq!(
        SyslinuxConf::parse(b"TOTALTIMEOUT 99999999999999999999\n"),
        Err(ReaderError::MalformedValueError(0))
    );
}

#[test]
fn say_decodes_multibyte_text() {
    let input = "LABEL l\nSAY h\u{e9}llo\n".as_bytes();
    let conf = parse_ok(input);
    let label = conf.labels.get(&"l".to_string()).unwrap();
    assert_eq!(label.say, Some("h\u{e9}llo".to_string()));
}

#[test]
fn pre_label_fields_fill_the_template() {
    let input = b"SAY greeting\nDISPLAY banner.txt\nLABEL l\nSAY other\n";
    let conf = parse_ok(input);
    assert_eq!(conf.global.label_defaults.say, Some("greeting".to_string()));
    assert_eq!(conf.global.label_defaults.display, Some(b"banner.txt".to_vec()));
    let label = conf.labels.get(&"l".to_string()).unwrap();
    assert_eq!(label.say, Some("other".to_string()));
}

#[test]
fn label_scope_fields_are_captured() {
    let input = b"LABEL l\nLINUX vmlinuz\nINITRD initrd.img\nFDTDIR dtbs\nAPPEND quiet\nDISPLAY msg.txt\n";
    let conf = parse_ok(input);
    let label = conf.labels.get(&"l".to_string()).unwrap();
    let KernelOrConfig::Kernel(kernel) = &label.kernel_or_config;
    assert_eq!(kernel.kernel_file, Some(KernelFile::Linux(b"vmlinuz".to_vec())));
    assert_eq!(kernel.initrd, Some(b"initrd.img".to_vec()));
    assert_eq!(kernel.fdt_dir, Some(b"dtbs".to_vec()));
    assert_eq!(kernel.append, Some("quiet".to_string()));
    assert_eq!(label.display, Some(b"msg.txt".to_vec()));
    assert_eq!(conf.labels.len(), 1);
}

#[test]
fn empty_input_parses_to_empty_document() {
    let conf = parse_ok(b"");
    assert_eq!(conf.global.default, None);
    assert_eq!(conf.labels.len(), 0);
}

#[test]
fn later_field_overwrites_earlier_one() {
    let conf = parse_ok(b"LABEL l\nAPPEND one\nAPPEND two\n");
    let label = conf.labels.get(&"l".to_string()).unwrap();
    let KernelOrConfig::Kernel(kernel) = &label.kernel_or_config;
    assert_eq!(kernel.append, Some("two".to_string()));
}

#[test]
fn carriage_return_line_endings_are_accepted() {
    let conf = parse_ok(b"DEFAULT a\r\nLABEL l\r\nSAY x\r\n");
    assert_eq!(conf.global.default, Some("a".to_string()));
    let label = conf.labels.get(&"l".to_string()).unwrap();
    assert_eq!(label.say, Some("x".to_string()));
    let conf = parse_ok(b"DEFAULT b\rLABEL m\rSAY y\r");
    assert_eq!(conf.global.default, Some("b".to_string()));
    assert_eq!(conf.labels.get(&"m".to_string()).unwrap().say, Some("y".to_string()));
}

#[test]
fn unterminated_blank_tail_is_harmless() {
    let conf = parse_ok(b"LABEL l\nAPPEND x\n   ");
    let label = conf.labels.get(&"l".to_string()).unwrap();
    let KernelOrConfig::Kernel(kernel) = &label.kernel_or_config;
    assert_eq!(kernel.append, Some("x".to_string()));
}

#[test]
fn timeout_tag_inside_a_label_is_an_unknown_tag() {
    let conf = parse_ok(b"LABEL l\nTIMEOUT abc\nSAY x\n");
    assert_eq!(conf.global.timeout, None);
    let label = conf.labels.get(&"l".to_string()).unwrap();
    assert_eq!(label.say, Some("x".to_string()));
}

#[test]
fn indented_text_help_is_not_a_block() {
    let conf = parse_ok(b"LABEL l\n  TEXT HELP\nSAY x\nENDTEXT\n");
    let label = conf.labels.get(&"l".to_string()).unwrap();
    assert_eq!(label.text_help, None);
    assert_eq!(label.say, Some("x".to_string()));
}

#[test]
fn label_without_name_is_an_unknown_tag() {
    let conf = parse_ok(b"LABEL\nSAY x\n");
    assert_eq!(conf.labels.len(), 0);
    assert_eq!(conf.global.label_defaults.say, Some("x".to_string()));
}

#[test]
fn buffer_may_end_right_after_the_last_field() {
    let conf = parse_ok(b"LABEL l\nKERNEL vmlinuz");
    let label = conf.labels.get(&"l".to_string()).unwrap();
    let KernelOrConfig::Kernel(kernel) = &label.kernel_or_config;
    assert_eq!(kernel.kernel_file, Some(KernelFile::Linux(b"vmlinuz".to_vec())));
    let conf = parse_ok(b"DEFAULT linux");
    assert_eq!(conf.global.default, Some("linux".to_string()));
}

#[test]
fn label_declaration_may_end_the_buffer() {
    let conf = parse_ok(b"DEFAULT a\nLABEL l");
    assert_eq!(conf.labels.len(), 1);
    assert!(conf.labels.get(&"l".to_string()).is_some());
}

#[test]
fn help_block_terminator_may_end_the_buffer() {
    let conf = parse_ok(b"LABEL l\nTEXT HELP\nLine one\nENDTEXT");
    let label = conf.labels.get(&"l".to_string()).unwrap();
    assert_eq!(label.text_help, Some("Line one".to_string()));
}

#[test]
fn undecodable_tail_is_encoding_error() {
    assert_eq!(
        SyslinuxConf::parse(b"LABEL l\n\xff\xfe"),
        Err(ReaderError::EncodingError(1))
    );
}

#[test]
fn timeout_accepts_a_leading_plus_sign() {
    let conf = parse_ok(b"TIMEOUT +5\n");
    assert_eq!(conf.global.timeout, Some(5));
    assert_eq!(SyslinuxConf::parse(b"TIMEOUT +\n"), Err(ReaderError::MalformedValueError(0)));
}

#[test]
fn unknown_tags_and_duplicates_are_reported() {
    let input = b"FOOBAR one\nLABEL a\nBAZ two\nLABEL a\nSAY x\n";
    let (r, warnings) = SyslinuxConf::parse_with_warnings(input);
    assert!(r.is_ok());
    assert_eq!(
        warnings,
        vec![Warning::UnknownTag(0), Warning::UnknownTag(2), Warning::DuplicateLabel(3)]
    );
}

#[test]
fn clean_input_yields_no_warnings() {
    let input = b"DEFAULT linux\n# comment\n\nLABEL linux\nKERNEL vmlinuz\n";
    let (r, warnings) = SyslinuxConf::parse_with_warnings(input);
    assert!(r.is_ok());
    assert!(warnings.is_empty());
    let reader =
        Reader::from_local_conf_file_path(b"/mnt".to_vec(), b"/mnt/boot/syslinux.cfg".to_vec())
            .unwrap();
    let (r, warnings) = reader.read_with_warnings(b"LABEL l\nMENU TITLE hi\n");
    assert!(r.is_ok());
    assert_eq!(warnings, vec![syslinux_conf::Warning::UnknownTag(1)]);
}
