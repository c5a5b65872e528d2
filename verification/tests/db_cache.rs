use fasm_cli::db_cache::{
    hex, info_text, start, CacheSummary, CommandArg, DbCommand, DbStart, SourceLine, SourceState, USAGE,
};

fn args(a: &[&str]) -> Vec<CommandArg> {
    a.iter().map(|s| CommandArg { bytes: s.as_bytes().to_vec(), text: s.to_string() }).collect()
}

fn usage(message: &str) -> DbStart {
    DbStart::Usage(format!("{USAGE}\nfasm-db-cache: error: {message}\n"))
}

#[test]
fn commands() {
    assert_eq!(
        start(&args(&["--cache-dir", "/c", "build", "/db", "xc7a35t", "xc7a50t"])),
        DbStart::Run {
            cache_dir: Some(b"/c".to_vec()),
            command: DbCommand::Build {
                root: b"/db".to_vec(),
                parts: vec!["xc7a35t".to_string(), "xc7a50t".to_string()]
            },
        }
    );
    assert_eq!(
        start(&args(&["--cache-dir=/d", "build", "--all", "/db"])),
        DbStart::Run { cache_dir: Some(b"/d".to_vec()), command: DbCommand::BuildAll { root: b"/db".to_vec() } }
    );
    assert_eq!(
        start(&args(&["verify", "a", "b"])),
        DbStart::Run { cache_dir: None, command: DbCommand::Verify(vec![b"a".to_vec(), b"b".to_vec()]) }
    );
    assert_eq!(start(&args(&["info"])), DbStart::Run { cache_dir: None, command: DbCommand::Info(vec![]) });
    assert_eq!(start(&args(&["list"])), DbStart::Run { cache_dir: None, command: DbCommand::List });
    assert_eq!(start(&args(&["clear"])), DbStart::Run { cache_dir: None, command: DbCommand::Clear });
}

#[test]
fn db_cache_help_and_usage_errors() {
    assert_eq!(start(&args(&["-h"])), DbStart::Help);
    assert_eq!(start(&args(&["list", "--help"])), DbStart::Help);
    assert_eq!(start(&args(&[])), usage("no command given"));
    assert_eq!(start(&args(&["--cache-dir"])), usage("--cache-dir needs a directory"));
    assert_eq!(start(&args(&["-x", "list"])), usage("unknown option -x"));
    assert_eq!(start(&args(&["frob"])), usage("unknown command \"frob\""));
    assert_eq!(start(&args(&["list", "x"])), usage("wrong arguments for \"list\""));
    assert_eq!(start(&args(&["build", "/db"])), usage("wrong arguments for \"build\""));
    assert_eq!(start(&args(&["build", "/db", "-p"])), usage("wrong arguments for \"build\""));
    assert_eq!(start(&args(&["build", "--all", "/db", "x"])), usage("wrong arguments for \"build\""));
}

#[test]
fn hex_digits() {
    assert_eq!(hex(&[0x00, 0x0f, 0xab, 0xff]), "000fabff");
    assert_eq!(hex(&[]), "");
}

#[test]
fn info_texts() {
    let summary = CacheSummary {
        file: "/c/xc7a35t.xdb".to_string(),
        part: "xc7a35t".to_string(),
        db_root: "/db/artix7".to_string(),
        layout: "prjxray".to_string(),
        architecture: "Series7".to_string(),
        format_version: "3".to_string(),
        crate_version: "0.1.0".to_string(),
        loader_fingerprint: "ab12".to_string(),
        this_build: false,
        created: 1700000000,
        file_len: 2048,
        payload_len: 1024,
        source_hash: vec![0xde, 0xad],
        source_bytes: 77,
        sources: vec![
            SourceLine {
                state: SourceState::Content { size: 12345, hash: (0u8..32).collect() },
                path: "tilegrid.json".to_string(),
            },
            SourceLine { state: SourceState::Absent, path: "x.db".to_string() },
            SourceLine { state: SourceState::Present, path: "y".to_string() },
        ],
    };
    assert_eq!(
        info_text(&summary),
        "/c/xc7a35t.xdb\n\
         \x20 part:            xc7a35t\n\
         \x20 database root:   /db/artix7\n\
         \x20 layout:          prjxray\n\
         \x20 architecture:    Series7\n\
         \x20 format version:  3\n\
         \x20 written by:      fasm-xilinx 0.1.0 (loader ab12, another build: will be rebuilt)\n\
         \x20 created:         1700000000 (Unix time)\n\
         \x20 size:            2048 bytes (payload 1024)\n\
         \x20 source hash:     dead (77 bytes)\n\
         \x20 sources:\n\
         \x20        12345  0001020304050607  tilegrid.json\n\
         \x20       absent                    x.db\n\
         \x20      present                    y\n\
         \n"
    );
    let this = CacheSummary { this_build: true, sources: vec![], ..summary };
    assert!(info_text(&this).contains("(loader ab12, this build)\n"));
    assert!(info_text(&this).ends_with("  sources:\n\n"));
}
