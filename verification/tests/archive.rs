use tarpipe::builder::build_archive;
use tarpipe::codec::encode_entries;
use tarpipe::entry::{ArchiveEntry, EntryKind};
use tarpipe::extract::{extract, ExtractError};
use tarpipe::fstree::{validate_path, BuildError, DirChild, FsNode, PathInput, PathReason};

fn file_input(path: &[u8], mode: u64, content: &[u8]) -> PathInput {
    PathInput {
        path: path.to_vec(),
        node: FsNode::File { mode, content: content.to_vec() },
    }
}

fn dir(mode: u64, children: Vec<DirChild>) -> FsNode {
    FsNode::Dir { mode, children }
}

fn child(name: &[u8], node: FsNode) -> DirChild {
    DirChild { name: name.to_vec(), node }
}

fn entry_tuple(e: &ArchiveEntry) -> (EntryKind, Vec<u8>, u64, Vec<u8>) {
    (e.kind, e.path.clone(), e.mode, e.content.clone())
}

#[test]
fn round_trip_single_file() {
    let inputs = vec![file_input(b"a.txt", 420, b"hello")];
    let bytes = build_archive(&inputs).unwrap();
    let entries = extract(&bytes).unwrap();
    assert_eq!(entries.len(), 1);
    assert_eq!(
        entry_tuple(&entries[0]),
        (EntryKind::File, b"a.txt".to_vec(), 420, b"hello".to_vec())
    );
}

#[test]
fn round_trip_preserves_permissions() {
    let inputs = vec![file_input(b"tool.sh", 0o755, b"#!/bin/sh\n")];
    let bytes = build_archive(&inputs).unwrap();
    let entries = extract(&bytes).unwrap();
    assert_eq!(entries[0].mode, 0o755);
}

#[test]
fn docs_directory_scenario() {
    // docs/ contains a.txt and sub/b.txt; the stored paths are relative
    // to docs itself, so the extracted destination stands for docs.
    let docs = dir(
        0o755,
        vec![
            child(b"a.txt", FsNode::File { mode: 420, content: b"alpha".to_vec() }),
            child(
                b"sub",
                dir(
                    0o755,
                    vec![child(b"b.txt", FsNode::File { mode: 420, content: b"beta".to_vec() })],
                ),
            ),
        ],
    );
    let inputs = vec![PathInput { path: b"docs".to_vec(), node: docs }];
    let bytes = build_archive(&inputs).unwrap();
    let entries = extract(&bytes).unwrap();
    let got: Vec<(EntryKind, Vec<u8>, u64, Vec<u8>)> = entries.iter().map(entry_tuple).collect();
    assert_eq!(
        got,
        vec![
            (EntryKind::File, b"a.txt".to_vec(), 420, b"alpha".to_vec()),
            (EntryKind::Dir, b"sub".to_vec(), 0o755, Vec::new()),
            (EntryKind::File, b"sub/b.txt".to_vec(), 420, b"beta".to_vec()),
        ]
    );
}

#[test]
fn nested_files_keep_their_depth() {
    let tree = dir(
        0o700,
        vec![child(
            b"sub1",
            dir(
                0o700,
                vec![child(
                    b"sub2",
                    dir(
                        0o700,
                        vec![child(b"deep.txt", FsNode::File { mode: 384, content: b"d".to_vec() })],
                    ),
                )],
            ),
        )],
    );
    let inputs = vec![PathInput { path: b"root".to_vec(), node: tree }];
    let bytes = build_archive(&inputs).unwrap();
    let entries = extract(&bytes).unwrap();
    let found = entries
        .iter()
        .any(|e| e.kind == EntryKind::File && e.path == b"sub1/sub2/deep.txt".to_vec());
    assert!(found);
}

#[test]
fn absolute_path_rejected() {
    let inputs = vec![file_input(b"/etc/passwd", 420, b"")];
    match build_archive(&inputs) {
        Err(BuildError::UnsupportedPath { path, reason }) => {
            assert_eq!(path, b"/etc/passwd".to_vec());
            assert_eq!(reason, PathReason::Absolute);
        }
        _ => panic!("an absolute path must abort the build"),
    }
}

#[test]
fn symlink_rejected() {
    let inputs = vec![PathInput { path: b"link".to_vec(), node: FsNode::Symlink }];
    match build_archive(&inputs) {
        Err(BuildError::UnsupportedPath { path, reason }) => {
            assert_eq!(path, b"link".to_vec());
            assert_eq!(reason, PathReason::Symlink);
        }
        _ => panic!("a symlink must abort the build"),
    }
}

#[test]
fn first_failure_wins() {
    // A valid file comes first; the symlink after it is the failure that
    // is reported, before the later missing path is looked at.
    let inputs = vec![
        file_input(b"ok.txt", 420, b"fine"),
        PathInput { path: b"link".to_vec(), node: FsNode::Symlink },
        PathInput { path: b"gone".to_vec(), node: FsNode::Missing },
    ];
    match build_archive(&inputs) {
        Err(BuildError::UnsupportedPath { path, reason }) => {
            assert_eq!(path, b"link".to_vec());
            assert_eq!(reason, PathReason::Symlink);
        }
        _ => panic!("the symlink is the first failing input"),
    }
}

#[test]
fn missing_path_not_found() {
    let inputs = vec![PathInput { path: b"gone".to_vec(), node: FsNode::Missing }];
    match build_archive(&inputs) {
        Err(BuildError::NotFound { path }) => assert_eq!(path, b"gone".to_vec()),
        _ => panic!("a missing path is not found"),
    }
}

#[test]
fn other_entry_type_not_found() {
    let inputs = vec![PathInput { path: b"sock".to_vec(), node: FsNode::Other }];
    match build_archive(&inputs) {
        Err(BuildError::NotFound { path }) => assert_eq!(path, b"sock".to_vec()),
        _ => panic!("a socket or device path is reported as not found"),
    }
}

#[test]
fn unreadable_file_keeps_cause() {
    let inputs = vec![PathInput {
        path: b"secret.txt".to_vec(),
        node: FsNode::Unreadable { cause: b"permission denied".to_vec() },
    }];
    match build_archive(&inputs) {
        Err(BuildError::FileOpen { path, cause }) => {
            assert_eq!(path, b"secret.txt".to_vec());
            assert_eq!(cause, b"permission denied".to_vec());
        }
        _ => panic!("an unreadable file aborts with its cause"),
    }
}

#[test]
fn symlink_inside_directory_aborts() {
    let tree = dir(0o755, vec![child(b"inner", FsNode::Symlink)]);
    let inputs = vec![PathInput { path: b"top".to_vec(), node: tree }];
    match build_archive(&inputs) {
        Err(BuildError::UnsupportedPath { path, reason }) => {
            assert_eq!(path, b"inner".to_vec());
            assert_eq!(reason, PathReason::Symlink);
        }
        _ => panic!("a symlink met during the walk aborts the build"),
    }
}

#[test]
fn empty_build_is_bare_trailer() {
    let inputs: Vec<PathInput> = Vec::new();
    let bytes = build_archive(&inputs).unwrap();
    assert_eq!(bytes, vec![0u8]);
    let entries = extract(&bytes).unwrap();
    assert!(entries.is_empty());
}

#[test]
fn wire_layout_is_exact() {
    let inputs = vec![file_input(b"a", 5, b"xy")];
    let bytes = build_archive(&inputs).unwrap();
    let mut expected: Vec<u8> = Vec::new();
    expected.push(1); // file tag
    expected.extend_from_slice(&[1, 0, 0, 0, 0, 0, 0, 0]); // path length
    expected.push(b'a');
    expected.extend_from_slice(&[5, 0, 0, 0, 0, 0, 0, 0]); // mode
    expected.extend_from_slice(&[2, 0, 0, 0, 0, 0, 0, 0]); // content length
    expected.extend_from_slice(b"xy");
    expected.push(0); // trailer
    assert_eq!(bytes, expected);
}

#[test]
fn extract_twice_yields_identical_trees() {
    let inputs = vec![
        file_input(b"one", 420, b"1"),
        file_input(b"two", 493, b"22"),
    ];
    let bytes = build_archive(&inputs).unwrap();
    let first = extract(&bytes).unwrap();
    let second = extract(&bytes).unwrap();
    let a: Vec<_> = first.iter().map(entry_tuple).collect();
    let b: Vec<_> = second.iter().map(entry_tuple).collect();
    assert_eq!(a, b);
}

#[test]
fn truncated_stream_rejected() {
    let inputs = vec![file_input(b"a.txt", 420, b"hello")];
    let mut bytes = build_archive(&inputs).unwrap();
    bytes.pop(); // lose the trailer
    assert_eq!(extract(&bytes).unwrap_err(), ExtractError::Truncated);
    let empty: Vec<u8> = Vec::new();
    assert_eq!(extract(&empty).unwrap_err(), ExtractError::Truncated);
}

#[test]
fn unknown_tag_rejected() {
    let bytes = vec![7u8];
    assert_eq!(extract(&bytes).unwrap_err(), ExtractError::BadTag);
}

#[test]
fn bytes_after_trailer_rejected() {
    let bytes = vec![0u8, 0u8];
    assert_eq!(extract(&bytes).unwrap_err(), ExtractError::TrailingData);
}

#[test]
fn validate_path_orders_its_rules() {
    // An absolute path that is also a symlink is reported as absolute:
    // the absolute check comes first.
    let inp = PathInput { path: b"/abs".to_vec(), node: FsNode::Symlink };
    match validate_path(&inp) {
        Err(BuildError::UnsupportedPath { reason, .. }) => {
            assert_eq!(reason, PathReason::Absolute)
        }
        _ => panic!("absolute wins over symlink"),
    }
    let ok = PathInput { path: b"rel".to_vec(), node: FsNode::File { mode: 420, content: Vec::new() } };
    assert!(validate_path(&ok).is_ok());
}

#[test]
fn entries_follow_input_order() {
    let inputs = vec![
        file_input(b"zeta", 420, b"z"),
        file_input(b"alpha", 420, b"a"),
    ];
    let bytes = build_archive(&inputs).unwrap();
    let entries = extract(&bytes).unwrap();
    let paths: Vec<Vec<u8>> = entries.iter().map(|e| e.path.clone()).collect();
    assert_eq!(paths, vec![b"zeta".to_vec(), b"alpha".to_vec()]);
}

#[test]
fn codec_round_trips_any_mode_bits() {
    let entries = vec![ArchiveEntry {
        kind: EntryKind::Dir,
        path: b"d".to_vec(),
        mode: u64::MAX,
        content: Vec::new(),
    }];
    let bytes = encode_entries(&entries);
    let decoded = extract(&bytes).unwrap();
    assert_eq!(decoded.len(), 1);
    assert_eq!(decoded[0].kind, EntryKind::Dir);
    assert_eq!(decoded[0].mode, u64::MAX);
}

#[test]
fn unreadable_file_inside_directory_names_its_relative_path() {
    let tree = dir(
        0o755,
        vec![child(
            b"sub",
            dir(
                0o755,
                vec![child(b"secret", FsNode::Unreadable { cause: b"denied".to_vec() })],
            ),
        )],
    );
    let inputs = vec![PathInput { path: b"top".to_vec(), node: tree }];
    match build_archive(&inputs) {
        Err(BuildError::FileOpen { path, cause }) => {
            assert_eq!(path, b"sub/secret".to_vec());
            assert_eq!(cause, b"denied".to_vec());
        }
        _ => panic!("an unreadable file met during the walk aborts the build"),
    }
}
