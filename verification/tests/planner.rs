//! Tests for the datum planner and the string utilities around it.

use falconeri::error::Error;
use falconeri::inputs::{atom_uris, count_atoms, input_to_datums, uri_to_local_path};
use falconeri::manifest::yaml_escape;
use falconeri::pipeline::{Glob, Input};
use falconeri::storage::parse_s3_url;

fn atom(uri: &str, repo: &str, glob: Glob) -> Input {
    Input::Atom { uri: uri.to_string(), repo: repo.to_string(), glob }
}

#[test]
fn uri_to_local_path_works() {
    let path = uri_to_local_path("gs://bucket/path/data1.csv", "myrepo").unwrap();
    assert_eq!(path, "/pfs/myrepo/data1.csv");
}

#[test]
fn run_uri_to_local_path_works() {
    let path = uri_to_local_path("gs://bucket/path/data1.csv", "myrepo").unwrap();
    assert_eq!(path, "/pfs/myrepo/data1.csv");
}

#[test]
fn inputs_uri_to_local_path_works() {
    let path = uri_to_local_path("gs://bucket/path/data1.csv", "myrepo").unwrap();
    assert_eq!(path, "/pfs/myrepo/data1.csv");
}

#[test]
fn uri_to_local_path_rejects_bad_uris() {
    assert_eq!(uri_to_local_path("no-slash-here", "repo"), Err(Error::NoSlashInUri));
    assert_eq!(uri_to_local_path("gs://bucket/dir/", "repo"), Err(Error::UriEndsWithSlash));
}

#[test]
fn plan_single_atom_top_level_entries() {
    // One datum per listed entry, each with one input file.
    let input = atom("gs://b/in/", "in", Glob::TopLevelDirectoryEntries);
    let listings = vec![vec!["gs://b/in/a.csv".to_string(), "gs://b/in/b.csv".to_string()]];
    let (datums, files) = input_to_datums(7, 1, &input, &listings).unwrap();
    assert_eq!(datums.len(), 2);
    assert_eq!(files.len(), 2);
    assert_eq!(files[0].uri, "gs://b/in/a.csv");
    assert_eq!(files[0].local_path, "/pfs/in/a.csv");
    assert_eq!(files[1].uri, "gs://b/in/b.csv");
    assert_eq!(files[1].local_path, "/pfs/in/b.csv");
    assert_eq!(files[0].datum_id, datums[0].id);
    assert_eq!(files[1].datum_id, datums[1].id);
    assert_eq!(datums[0].job_id, 7);
    assert_eq!(datums[1].job_id, 7);
}

#[test]
fn plan_whole_repo() {
    // A single datum holding the whole prefix, normalized to end with a
    // slash, placed at the repo's own directory.
    let input = atom("gs://b/data", "data", Glob::WholeRepo);
    let listings = vec![vec!["gs://b/data/x".to_string()]];
    let (datums, files) = input_to_datums(1, 1, &input, &listings).unwrap();
    assert_eq!(datums.len(), 1);
    assert_eq!(files.len(), 1);
    assert_eq!(files[0].uri, "gs://b/data/");
    assert_eq!(files[0].local_path, "/pfs/data/");
}

#[test]
fn plan_union_concatenates() {
    let input = Input::Union(vec![
        atom("gs://b/cats/", "cats", Glob::TopLevelDirectoryEntries),
        atom("gs://b/dogs/", "dogs", Glob::TopLevelDirectoryEntries),
    ]);
    let listings = vec![
        vec!["gs://b/cats/c1".to_string()],
        vec!["gs://b/dogs/d1".to_string(), "gs://b/dogs/d2".to_string()],
    ];
    let (datums, files) = input_to_datums(1, 1, &input, &listings).unwrap();
    assert_eq!(datums.len(), 3);
    assert_eq!(files.len(), 3);
    assert_eq!(files[0].local_path, "/pfs/cats/c1");
    assert_eq!(files[1].local_path, "/pfs/dogs/d1");
    assert_eq!(files[2].local_path, "/pfs/dogs/d2");
}

#[test]
fn plan_cross_product() {
    // Every (cat, dog) combination, outer factor slower, two files each.
    let input = Input::Cross(vec![
        atom("gs://b/cats/", "cats", Glob::TopLevelDirectoryEntries),
        atom("gs://b/dogs/", "dogs", Glob::TopLevelDirectoryEntries),
    ]);
    let listings = vec![
        vec!["gs://b/cats/c1".to_string(), "gs://b/cats/c2".to_string()],
        vec!["gs://b/dogs/d1".to_string(), "gs://b/dogs/d2".to_string()],
    ];
    let (datums, files) = input_to_datums(1, 1, &input, &listings).unwrap();
    assert_eq!(datums.len(), 4);
    assert_eq!(files.len(), 8);
    let pairs: Vec<(String, String)> = (0..4)
        .map(|k| (files[2 * k].uri.clone(), files[2 * k + 1].uri.clone()))
        .collect();
    assert_eq!(
        pairs,
        vec![
            ("gs://b/cats/c1".to_string(), "gs://b/dogs/d1".to_string()),
            ("gs://b/cats/c1".to_string(), "gs://b/dogs/d2".to_string()),
            ("gs://b/cats/c2".to_string(), "gs://b/dogs/d1".to_string()),
            ("gs://b/cats/c2".to_string(), "gs://b/dogs/d2".to_string()),
        ]
    );
    // Each file of a datum is tagged with that datum's id.
    for k in 0..4 {
        assert_eq!(files[2 * k].datum_id, datums[k].id);
        assert_eq!(files[2 * k + 1].datum_id, datums[k].id);
    }
}

#[test]
fn plan_empty_cross_is_empty() {
    let input = Input::Cross(vec![]);
    let listings: Vec<Vec<String>> = vec![];
    let (datums, files) = input_to_datums(1, 1, &input, &listings).unwrap();
    assert_eq!(datums.len(), 0);
    assert_eq!(files.len(), 0);
}

#[test]
fn plan_rejects_entry_ending_with_slash() {
    let input = atom("gs://b/in/", "in", Glob::TopLevelDirectoryEntries);
    let listings = vec![vec!["gs://b/in/subdir/".to_string()]];
    assert!(matches!(
        input_to_datums(1, 1, &input, &listings),
        Err(Error::UriEndsWithSlash)
    ));
}

#[test]
fn atom_uris_in_traversal_order() {
    let input = Input::Cross(vec![
        atom("gs://b/one/", "one", Glob::WholeRepo),
        Input::Union(vec![
            atom("gs://b/two/", "two", Glob::TopLevelDirectoryEntries),
            atom("gs://b/three/", "three", Glob::TopLevelDirectoryEntries),
        ]),
    ]);
    assert_eq!(count_atoms(&input), 3);
    let uris = atom_uris(&input);
    assert_eq!(uris, vec!["gs://b/one/", "gs://b/two/", "gs://b/three/"]);
}

#[test]
fn yaml_escape_handles_common_chars() {
    let examples = &[
        ("abc 123", "abc 123"),
        ("=", "="),
        ("\\", "\\\\"),
        ("\"", "\\\""),
        ("\'", "\\\'"),
        ("&", "&"),
        ("\n", "\\n"),
        ("\r", "\\r"),
        ("\t", "\\t"),
        ("\0", "\\0"),
        ("\u{0007}", "\\u0007"),
        ("\u{13000}", "\\U00013000"),
    ];
    for &(input, expected) in examples {
        assert_eq!(yaml_escape(input), expected);
    }
}

#[test]
fn url_parsing() {
    let (bucket, key) = parse_s3_url("s3://top-level").unwrap();
    assert_eq!((bucket.as_str(), key.as_str()), ("top-level", ""));
    let (bucket, key) = parse_s3_url("s3://top-level/").unwrap();
    assert_eq!((bucket.as_str(), key.as_str()), ("top-level", ""));
    let (bucket, key) = parse_s3_url("s3://top-level/path").unwrap();
    assert_eq!((bucket.as_str(), key.as_str()), ("top-level", "path"));
    let (bucket, key) = parse_s3_url("s3://top-level/path/").unwrap();
    assert_eq!((bucket.as_str(), key.as_str()), ("top-level", "path/"));
    assert!(parse_s3_url("gs://foo/").is_err());
}
