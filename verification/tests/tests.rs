use zip_extract::archive::EntryMeta;
use zip_extract::paths::sanitize_name;
use zip_extract::plan::has_toplevel;
use zip_extract::plan::plan_entry;
use zip_extract::session::Session;
use zip_extract::ZipExtractError;

/// One materialized output: relative path components, directory flag,
/// permission bits, content.
type Output = (Vec<String>, bool, Option<u32>, Vec<u8>);

fn make_zip(entries: &[(&str, Option<&[u8]>, Option<u32>)]) -> Vec<u8> {
    let mut w = zip::ZipWriter::new(std::io::Cursor::new(Vec::new()));
    for (name, content, mode) in entries {
        let mut opts = zip::write::SimpleFileOptions::default()
            .compression_method(zip::CompressionMethod::Stored);
        if let Some(m) = mode {
            opts = opts.unix_permissions(*m);
        }
        match content {
            Some(c) => {
                w.start_file(*name, opts).unwrap();
                std::io::Write::write_all(&mut w, c).unwrap();
            }
            None => {
                w.add_directory(*name, opts).unwrap();
            }
        }
    }
    w.finish().unwrap().into_inner()
}

/// A minimal stored archive holding one empty entry whose raw name bytes
/// are written exactly as given, bypassing the writer's UTF-8 name API.
fn raw_name_zip(name: &[u8]) -> Vec<u8> {
    let mut z: Vec<u8> = Vec::new();
    let nlen = (name.len() as u16).to_le_bytes();
    // local file header
    z.extend_from_slice(&[0x50, 0x4b, 0x03, 0x04, 20, 0, 0, 0, 0, 0, 0, 0, 0, 0]);
    z.extend_from_slice(&[0; 12]); // crc, compressed size, uncompressed size
    z.extend_from_slice(&nlen);
    z.extend_from_slice(&[0, 0]);
    z.extend_from_slice(name);
    let cd_start = z.len() as u32;
    // central directory header
    z.extend_from_slice(&[0x50, 0x4b, 0x01, 0x02, 20, 0, 20, 0, 0, 0, 0, 0, 0, 0, 0, 0]);
    z.extend_from_slice(&[0; 12]); // crc, compressed size, uncompressed size
    z.extend_from_slice(&nlen);
    z.extend_from_slice(&[0; 8]); // extra, comment, disk, internal attrs
    z.extend_from_slice(&[0, 0, 0, 0]); // external attrs
    z.extend_from_slice(&[0, 0, 0, 0]); // local header offset
    z.extend_from_slice(name);
    let cd_len = z.len() as u32 - cd_start;
    // end of central directory
    z.extend_from_slice(&[0x50, 0x4b, 0x05, 0x06, 0, 0, 0, 0, 1, 0, 1, 0]);
    z.extend_from_slice(&cd_len.to_le_bytes());
    z.extend_from_slice(&cd_start.to_le_bytes());
    z.extend_from_slice(&[0, 0]);
    z
}

fn extract_all(bytes: Vec<u8>, strip: bool) -> Vec<Output> {
    let mut s = Session::open(bytes, strip).unwrap();
    let mut out: Vec<Output> = Vec::new();
    for i in 0..s.count() {
        if let Some(p) = s.step(i).unwrap() {
            let comps: Vec<String> = p
                .plan
                .components
                .iter()
                .map(|c| String::from_utf8(c.clone()).unwrap())
                .collect();
            out.push((comps, p.plan.is_dir, p.plan.mode, p.content));
        }
    }
    out
}

fn path(comps: &[&str]) -> Vec<String> {
    comps.iter().map(|c| c.to_string()).collect()
}

#[test]
fn valid_archive() {
    let bytes = make_zip(&[
        ("file.txt", Some(b"hello"), None),
        ("dir/", None, None),
        ("dir/nested.txt", Some(b"world"), None),
    ]);
    let out = extract_all(bytes, true);
    assert_eq!(out.len(), 3);
    assert_eq!(out[0].0, path(&["file.txt"]));
    assert!(!out[0].1);
    assert_eq!(out[0].3, b"hello".to_vec());
    assert_eq!(out[1].0, path(&["dir"]));
    assert!(out[1].1);
    assert_eq!(out[2].0, path(&["dir", "nested.txt"]));
    assert_eq!(out[2].3, b"world".to_vec());
}

#[test]
fn valid_archive_with_toplevel() {
    let bytes = make_zip(&[
        ("top/", None, None),
        ("top/file.txt", Some(b"hello"), None),
        ("top/dir/", None, None),
        ("top/dir/nested.txt", Some(b"world"), None),
    ]);
    let mut s = Session::open(bytes, true).unwrap();
    assert!(s.strips());
    let mut out: Vec<Output> = Vec::new();
    for i in 0..s.count() {
        if let Some(p) = s.step(i).unwrap() {
            let comps: Vec<String> = p
                .plan
                .components
                .iter()
                .map(|c| String::from_utf8(c.clone()).unwrap())
                .collect();
            out.push((comps, p.plan.is_dir, p.plan.mode, p.content));
        }
    }
    // the toplevel directory entry itself is skipped
    assert_eq!(out.len(), 3);
    assert_eq!(out[0].0, path(&["file.txt"]));
    assert_eq!(out[0].3, b"hello".to_vec());
    assert_eq!(out[1].0, path(&["dir"]));
    assert!(out[1].1);
    assert_eq!(out[2].0, path(&["dir", "nested.txt"]));
    assert_eq!(out[2].3, b"world".to_vec());
}

#[test]
fn valid_archive_forbid_toplevel() {
    let bytes = make_zip(&[
        ("top/", None, None),
        ("top/file.txt", Some(b"hello"), None),
        ("top/dir/", None, None),
        ("top/dir/nested.txt", Some(b"world"), None),
    ]);
    let out = extract_all(bytes, false);
    // layout preserved: same tree as the stripped case, rooted at top/
    assert_eq!(out.len(), 4);
    assert_eq!(out[0].0, path(&["top"]));
    assert!(out[0].1);
    assert_eq!(out[1].0, path(&["top", "file.txt"]));
    assert_eq!(out[1].3, b"hello".to_vec());
    assert_eq!(out[2].0, path(&["top", "dir"]));
    assert_eq!(out[3].0, path(&["top", "dir", "nested.txt"]));
    assert_eq!(out[3].3, b"world".to_vec());
}

#[test]
fn invalid_archive() {
    let e = Session::open(b"this is not an archive".to_vec(), false);
    assert!(matches!(
        e,
        Err(ZipExtractError::Zip(zip::result::ZipError::InvalidArchive(_)))
    ));
}

#[test]
fn strip_equivalence() {
    let wrapped = make_zip(&[
        ("top/x.txt", Some(b"xx"), None),
        ("top/y/", None, None),
        ("top/y/z.txt", Some(b"zz"), None),
    ]);
    let flat = make_zip(&[
        ("x.txt", Some(b"xx"), None),
        ("y/", None, None),
        ("y/z.txt", Some(b"zz"), None),
    ]);
    assert_eq!(extract_all(wrapped, true), extract_all(flat, false));
}

#[test]
fn single_entry_never_stripped() {
    let bytes = make_zip(&[("root/file.txt", Some(b"alone"), None)]);
    let mut s = Session::open(bytes, true).unwrap();
    assert!(!s.strips());
    let p = s.step(0).unwrap().unwrap();
    let comps: Vec<String> = p
        .plan
        .components
        .iter()
        .map(|c| String::from_utf8(c.clone()).unwrap())
        .collect();
    assert_eq!(comps, path(&["root", "file.txt"]));
}

#[test]
fn mixed_roots_never_stripped() {
    let bytes = make_zip(&[
        ("a/x.txt", Some(b"1"), None),
        ("b/y.txt", Some(b"2"), None),
    ]);
    let mut s = Session::open(bytes.clone(), true).unwrap();
    assert!(!s.strips());
    assert_eq!(extract_all(bytes.clone(), true), extract_all(bytes, false));
}

#[test]
fn traversal_names_rejected() {
    assert!(sanitize_name(&b"../../evil".to_vec()).is_none());
    assert!(sanitize_name(&b"/etc/passwd".to_vec()).is_none());
    assert!(sanitize_name(&b"a/../../evil".to_vec()).is_none());
    assert!(sanitize_name(&b"a\0b".to_vec()).is_none());
    let meta = EntryMeta {
        name_raw: b"../../evil".to_vec(),
        mode: None,
    };
    assert!(plan_entry(&meta, false).is_none());
    assert!(plan_entry(&meta, true).is_none());
}

#[test]
fn traversal_entry_skipped_not_fatal() {
    let bytes = raw_name_zip(b"../evil");
    let mut s = Session::open(bytes, false).unwrap();
    assert_eq!(s.count(), 1);
    // the hostile entry is skipped and the call still succeeds
    assert!(s.step(0).unwrap().is_none());
}

#[test]
fn drive_and_backslash_anchors_rejected() {
    assert!(sanitize_name(&b"C:\\evil".to_vec()).is_none());
    assert!(sanitize_name(&b"C:/evil".to_vec()).is_none());
    assert!(sanitize_name(&b"C:evil".to_vec()).is_none());
    assert!(sanitize_name(&b"\\evil".to_vec()).is_none());
    assert!(sanitize_name(&b"\\\\server\\share".to_vec()).is_none());
    assert!(sanitize_name(&b"./C:evil".to_vec()).is_none());
    let meta = EntryMeta {
        name_raw: b"C:\\evil".to_vec(),
        mode: None,
    };
    assert!(plan_entry(&meta, false).is_none());
}

#[test]
fn backslash_and_colon_ordinary_elsewhere() {
    // On POSIX these bytes are ordinary parts of a file name; only where
    // they anchor a path is an entry rejected.
    assert_eq!(sanitize_name(&b"a\\b".to_vec()).unwrap(), vec![b"a\\b".to_vec()]);
    assert_eq!(
        sanitize_name(&b"a/b:stream".to_vec()).unwrap(),
        vec![b"a".to_vec(), b"b:stream".to_vec()]
    );
    assert_eq!(
        sanitize_name(&b"notes:v2.txt/x".to_vec()).unwrap(),
        vec![b"notes:v2.txt".to_vec(), b"x".to_vec()]
    );
}

#[test]
fn strip_exposed_anchor_skipped() {
    // Stripping the shared toplevel must not uncover a drive anchor.
    let meta = EntryMeta {
        name_raw: b"top/C:evil".to_vec(),
        mode: None,
    };
    let p = plan_entry(&meta, false).unwrap();
    assert_eq!(p.components, vec![b"top".to_vec(), b"C:evil".to_vec()]);
    assert!(plan_entry(&meta, true).is_none());
}

#[test]
fn safe_parent_segments_kept() {
    let v = sanitize_name(&b"a/../b".to_vec()).unwrap();
    assert_eq!(v, vec![b"a".to_vec(), b"..".to_vec(), b"b".to_vec()]);
}

#[test]
fn dot_and_empty_segments_dropped() {
    let meta = EntryMeta {
        name_raw: b"./a//b/".to_vec(),
        mode: None,
    };
    let p = plan_entry(&meta, false).unwrap();
    assert_eq!(p.components, vec![b"a".to_vec(), b"b".to_vec()]);
    assert!(p.is_dir);
}

#[test]
fn shift_jis_name_decoded() {
    // 0x83 0x65 is Shift JIS for the katakana letter whose UTF-8 bytes are
    // e3 83 86; the raw bytes are not valid UTF-8.
    let bytes = raw_name_zip(&[0x83, 0x65, 0x2f]);
    let mut s = Session::open(bytes, false).unwrap();
    let p = s.step(0).unwrap().unwrap();
    assert_eq!(p.plan.components, vec![vec![0xe3u8, 0x83, 0x86]]);
    assert!(p.plan.is_dir);
}

#[test]
fn utf8_name_kept_as_written() {
    let name = "caf\u{e9}.txt";
    let bytes = make_zip(&[(name, Some(b"x"), None)]);
    let mut s = Session::open(bytes, false).unwrap();
    let p = s.step(0).unwrap().unwrap();
    assert_eq!(p.plan.components, vec![name.as_bytes().to_vec()]);
}

#[test]
fn undecodable_name_skipped() {
    // 0x81 followed by 0x20 is malformed Shift JIS and invalid UTF-8.
    let bytes = raw_name_zip(&[0x81, 0x20]);
    let mut s = Session::open(bytes, false).unwrap();
    assert!(s.step(0).unwrap().is_none());
}

#[test]
fn permissions_preserved() {
    let bytes = make_zip(&[("tool.sh", Some(b"#!/bin/sh\n"), Some(0o754))]);
    let mut s = Session::open(bytes, false).unwrap();
    let p = s.step(0).unwrap().unwrap();
    let mode = p.plan.mode.unwrap();
    assert_eq!(mode & 0o777, 0o754);
}

#[test]
fn empty_archive() {
    let bytes = make_zip(&[]);
    let mut s = Session::open(bytes, true).unwrap();
    assert!(!s.strips());
    assert_eq!(s.count(), 0);
}

#[test]
fn content_round_trip() {
    let body: Vec<u8> = (0..10000u32).map(|i| (i % 251) as u8).collect();
    let mut w = zip::ZipWriter::new(std::io::Cursor::new(Vec::new()));
    let opts = zip::write::SimpleFileOptions::default()
        .compression_method(zip::CompressionMethod::Deflated);
    w.start_file("data.bin", opts).unwrap();
    std::io::Write::write_all(&mut w, &body).unwrap();
    let bytes = w.finish().unwrap().into_inner();
    let mut s = Session::open(bytes, false).unwrap();
    let p = s.step(0).unwrap().unwrap();
    assert_eq!(p.content, body);
}

#[test]
fn bzip2_content_round_trip() {
    let body: Vec<u8> = (0..5000u32).map(|i| (i % 13) as u8).collect();
    let mut w = zip::ZipWriter::new(std::io::Cursor::new(Vec::new()));
    let opts = zip::write::SimpleFileOptions::default()
        .compression_method(zip::CompressionMethod::Bzip2);
    w.start_file("data.bin", opts).unwrap();
    std::io::Write::write_all(&mut w, &body).unwrap();
    let bytes = w.finish().unwrap().into_inner();
    let mut s = Session::open(bytes, false).unwrap();
    let p = s.step(0).unwrap().unwrap();
    assert_eq!(p.content, body);
}

#[test]
fn has_toplevel_detection() {
    let meta = |n: &[u8]| EntryMeta {
        name_raw: n.to_vec(),
        mode: None,
    };
    assert!(has_toplevel(&vec![meta(b"top/a"), meta(b"top/b/c")]));
    assert!(has_toplevel(&vec![meta(b"top/"), meta(b"top/a")]));
    assert!(!has_toplevel(&vec![meta(b"top/a"), meta(b"other/b")]));
    assert!(!has_toplevel(&vec![meta(b"top/a")]));
    assert!(!has_toplevel(&vec![]));
}
