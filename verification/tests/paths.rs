//! Tests of path sanitization, resolution and configuration-file location.

use syslinux_conf::resolve::resolve_one_path;
use syslinux_conf::{Labels, Label, LocalConfType, Reader, ReaderError};

#[test]
fn rooted_path_resolves_under_root_dir() {
    let r = resolve_one_path(b"/linux/vmlinuz".to_vec(), &b"/mnt/boot".to_vec(), &b"/c".to_vec());
    assert_eq!(r, b"/mnt/boot/linux/vmlinuz".to_vec());
}

#[test]
fn relative_path_resolves_under_conf_dir() {
    let r = resolve_one_path(b"vmlinuz".to_vec(), &b"/mnt".to_vec(), &b"/mnt/boot/syslinux".to_vec());
    assert_eq!(r, b"/mnt/boot/syslinux/vmlinuz".to_vec());
}

#[test]
fn parent_components_are_dropped() {
    let r = resolve_one_path(b"../../etc/passwd".to_vec(), &b"/mnt".to_vec(), &b"/mnt/boot".to_vec());
    assert_eq!(r, b"/mnt/boot/etc/passwd".to_vec());
    let r = resolve_one_path(b"/../etc/./passwd".to_vec(), &b"/mnt".to_vec(), &b"/mnt/boot".to_vec());
    assert_eq!(r, b"/mnt/etc/passwd".to_vec());
}

#[test]
fn duplicate_separators_collapse() {
    let r = resolve_one_path(b"a//b".to_vec(), &b"/m".to_vec(), &b"/c".to_vec());
    assert_eq!(r, b"/c/a/b".to_vec());
}

#[test]
fn root_dir_with_trailing_separator_gets_no_second_one() {
    let r = resolve_one_path(b"/vmlinuz".to_vec(), &b"/".to_vec(), &b"/c".to_vec());
    assert_eq!(r, b"/vmlinuz".to_vec());
}

#[test]
fn read_resolves_every_path_field() {
    let input = b"DISPLAY pre.txt\nLABEL l\nLINUX /boot/vmlinuz\nINITRD initrd.img\nDISPLAY msg.txt\n";
    let reader = Reader::from_local_conf_file_path(b"/mnt".to_vec(), b"/mnt/sl/extlinux.conf".to_vec())
        .expect("reader should build");
    let conf = reader.read(input).expect("input should read");
    assert_eq!(conf.global.label_defaults.display, Some(b"/mnt/sl/pre.txt".to_vec()));
    let label = conf.labels.get(&"l".to_string()).unwrap();
    let syslinux_conf::KernelOrConfig::Kernel(kernel) = &label.kernel_or_config;
    assert_eq!(
        kernel.kernel_file,
        Some(syslinux_conf::KernelFile::Linux(b"/mnt/boot/vmlinuz".to_vec()))
    );
    assert_eq!(kernel.initrd, Some(b"/mnt/sl/initrd.img".to_vec()));
    assert_eq!(label.display, Some(b"/mnt/sl/msg.txt".to_vec()));
}

#[test]
fn candidate_paths_follow_the_conventions() {
    let ps = LocalConfType::SysLinux.get_paths(b"/mnt".to_vec());
    assert_eq!(
        ps,
        vec![
            b"/mnt/boot/syslinux/syslinux.cfg".to_vec(),
            b"/mnt/syslinux/syslinux.cfg".to_vec(),
            b"/mnt/syslinux.cfg".to_vec(),
        ]
    );
    let ps = LocalConfType::ExtLinux.get_paths(b"/mnt".to_vec());
    assert_eq!(ps[2], b"/mnt/extlinux.conf".to_vec());
    let all = LocalConfType::get_all_paths(b"/r".to_vec());
    assert_eq!(all.len(), 9);
    assert_eq!(all[3], b"/r/boot/isolinux/isolinux.cfg".to_vec());
}

#[test]
fn conf_dir_is_the_files_parent() {
    let r = Reader::from_local_conf_file_path(b"/mnt".to_vec(), b"/mnt/boot/syslinux.cfg".to_vec())
        .unwrap();
    assert_eq!(r.conf_dir, b"/mnt/boot".to_vec());
    let r = Reader::from_local_conf_file_path(b"/mnt".to_vec(), b"/syslinux.cfg".to_vec()).unwrap();
    assert_eq!(r.conf_dir, b"/".to_vec());
    let r = Reader::from_local_conf_file_path(b"/mnt".to_vec(), b"syslinux.cfg".to_vec()).unwrap();
    assert_eq!(r.conf_dir, b"".to_vec());
}

#[test]
fn pathless_conf_file_is_rejected() {
    assert_eq!(
        Reader::from_local_conf_file_path(b"/mnt".to_vec(), b"".to_vec()),
        Err(ReaderError::IOError)
    );
    assert_eq!(
        Reader::from_local_conf_file_path(b"/mnt".to_vec(), b"/".to_vec()),
        Err(ReaderError::IOError)
    );
}

#[test]
fn missing_configuration_is_not_found() {
    let r = Reader::from_local(b"/nonexistent_root_for_these_tests".to_vec());
    assert_eq!(r, Err(ReaderError::NotFoundError));
    let r = Reader::from_local_type(
        b"/nonexistent_root_for_these_tests".to_vec(),
        LocalConfType::IsoLinux,
    );
    assert_eq!(r, Err(ReaderError::NotFoundError));
}

#[test]
fn labels_insert_is_first_write_wins() {
    let mut labels = Labels::new();
    let mut first = Label::default();
    first.say = Some("first".to_string());
    let mut second = Label::default();
    second.say = Some("second".to_string());
    assert!(labels.insert("a".to_string(), first.clone()));
    assert!(!labels.insert("a".to_string(), second));
    assert_eq!(labels.len(), 1);
    assert_eq!(labels.get(&"a".to_string()), Some(&first));
}

#[test]
fn trailing_separators_are_ignored_by_the_parent() {
    let r = Reader::from_local_conf_file_path(b"/mnt".to_vec(), b"/mnt/boot//syslinux.cfg".to_vec())
        .unwrap();
    assert_eq!(r.conf_dir, b"/mnt/boot".to_vec());
    assert_eq!(
        Reader::from_local_conf_file_path(b"/mnt".to_vec(), b"//".to_vec()),
        Err(ReaderError::IOError)
    );
}
