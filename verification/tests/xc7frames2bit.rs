use fasm_cli::bitread::{self, strtol0, BitreadStep, FrameFields};
use fasm_cli::xc7frames2bit::{
    architecture, cpp_frame_address, part_not_found, run, run_tool, stoul_terminate, Architecture, ArchitectureError,
    Env, FormatChoice, Step, Tool, ABORT, BAD_VARIANT_TERMINATE,
};

fn args(a: &[&str]) -> Vec<Vec<u8>> {
    a.iter().map(|s| s.as_bytes().to_vec()).collect()
}

#[test]
fn strtol_base_zero() {
    assert_eq!(strtol0(b"0x00400100"), 0x0040_0100);
    assert_eq!(strtol0(b" 12abc"), 12);
    assert_eq!(strtol0(b"010"), 8);
    assert_eq!(strtol0(b"-5"), -5);
    assert_eq!(strtol0(b""), 0);
    assert_eq!(strtol0(b"0x"), 0);
    assert_eq!(strtol0(b"99999999999999999999"), i64::MAX);
    assert_eq!(strtol0(b"-99999999999999999999"), i64::MIN);
}

#[test]
fn frame_address_printing() {
    let fields = |block_type, bottom, row, column, minor| FrameFields { block_type, bottom, row, column, minor };
    assert_eq!(
        cpp_frame_address(Architecture::UltraScalePlus, 0x18805c8, &fields(1, 1, 34, 5, 200)),
        "[ 0x18805c8]  Row=34 Column= 5 Minor=200 Type=Block RAM"
    );
    assert_eq!(
        cpp_frame_address(Architecture::UltraScalePlus, 0, &fields(0, 0, 0, 0, 0)),
        "[         0]  Row= 0 Column= 0 Minor= 0 Type=CLB/IO/CLK"
    );
    assert_eq!(
        cpp_frame_address(Architecture::Series7, 0x0042_0100, &fields(0, 1, 1, 2, 0)),
        "[  0x420100] BOTTOM Row= 1 Column= 2 Minor= 0 Type=CLB/IO/CLK"
    );
    assert_eq!(
        cpp_frame_address(Architecture::UltraScale, 0x0380_0000, &fields(7, 0, 0, 0, 0)),
        "[ 0x3800000]  Row= 0 Column= 0 Minor= 0 Type="
    );
}

#[test]
fn architectures() {
    let prjxray = |name: &[u8]| architecture("t", false, name);
    let prjuray = |name: &[u8]| architecture("t", true, name);
    for (arch, name) in [
        (Architecture::Series7, "Series7"),
        (Architecture::UltraScale, "UltraScale"),
        (Architecture::UltraScalePlus, "UltraScalePlus"),
    ] {
        assert_eq!(prjxray(name.as_bytes()), Ok(FormatChoice { architecture: arch, native: false }));
        assert_eq!(prjuray(name.as_bytes()), Ok(FormatChoice { architecture: arch, native: true }));
    }
    assert_eq!(prjxray(b"Foo"), Ok(FormatChoice { architecture: Architecture::Series7, native: false }));
    assert_eq!(prjuray(b"Foo"), Err(ArchitectureError::Abort(BAD_VARIANT_TERMINATE.to_owned())));
    assert_eq!(
        prjuray(b"Spartan6"),
        Err(ArchitectureError::Unsupported(
            "t: --architecture=Spartan6 is not supported yet (only Series7, UltraScale and UltraScalePlus)\n"
                .to_owned()
        ))
    );
}

#[test]
fn runs_read_their_flags() {
    let env = Env::default();
    match run_tool(
        Tool::Xc7frames2bit,
        b"xc7frames2bit",
        &args(&["--part_file=p.yaml", "--frm_file", "f.frm", "--output_file=o.bit", "--part_name=xc7a35t"]),
        &env,
    ) {
        Step::Build(b) => {
            assert_eq!(b.format, FormatChoice { architecture: Architecture::Series7, native: false });
            assert_eq!(b.part_file, b"p.yaml".to_vec());
            assert_eq!(b.frm_file, b"f.frm".to_vec());
            assert_eq!(b.output_file, b"o.bit".to_vec());
            assert_eq!(b.part_name, b"xc7a35t".to_vec());
            assert!(!b.valid_frames_only);
        }
        other => panic!("{other:?}"),
    }
    match run_tool(Tool::Xcframes2bit, b"xcframes2bit", &args(&["--architecture=Foo"]), &env) {
        Step::Exit { code, stdout, stderr } => {
            assert_eq!(code, ABORT);
            assert!(stdout.is_empty());
            assert_eq!(stderr, BAD_VARIANT_TERMINATE.as_bytes());
        }
        other => panic!("{other:?}"),
    }
    match run_tool(Tool::Xc7frames2bit, b"xc7frames2bit", &args(&["--architecture=Spartan6"]), &env) {
        Step::Exit { code, stderr, .. } => {
            assert_eq!(code, 1);
            assert!(stderr.starts_with(b"xc7frames2bit: --architecture=Spartan6 is not supported yet"));
        }
        other => panic!("{other:?}"),
    }
    match run_tool(Tool::Xc7frames2bit, b"xc7frames2bit", &args(&["--bogus"]), &env) {
        Step::Exit { code, stderr, .. } => {
            assert_eq!(code, 1);
            assert_eq!(stderr, b"ERROR: unknown command line flag 'bogus'\n".to_vec());
        }
        other => panic!("{other:?}"),
    }
}

#[test]
fn messages() {
    assert_eq!(part_not_found(b"p.yaml"), b"Part file p.yaml not found or invalid\n".to_vec());
    assert_eq!(
        stoul_terminate(true),
        "terminate called after throwing an instance of 'std::out_of_range'\n  what():  stoul\n"
    );
}

#[test]
fn bitread_runs_read_their_flags() {
    let env = Env::default();
    match bitread::run_tool(
        bitread::Flavor::Prjuray,
        b"bitread",
        &args(&["-z", "-f", "7", "-F", "0x10:0x20", "--part_file=p.yaml", "-E", "in.bit"]),
        &env,
    ) {
        BitreadStep::Read(r) => {
            assert!(r.selection.skip_zero);
            assert_eq!(r.selection.frame, Some(7));
            assert_eq!(r.selection.range, (0x10, 0x21));
            assert_eq!(r.input, Some(b"in.bit".to_vec()));
            assert_eq!(r.part_file, b"p.yaml".to_vec());
            assert_eq!(r.architecture, b"Series7".to_vec());
            assert!(r.ecc_warnings);
            assert!(!r.keep_ecc && !r.x && !r.y && !r.p);
        }
        other => panic!("{other:?}"),
    }
    match bitread::run_tool(bitread::Flavor::Prjxray, b"bitread", &args(&["a", "b"]), &env) {
        BitreadStep::Read(r) => {
            assert_eq!(r.input, None);
            assert_eq!(r.selection.frame, None);
            assert_eq!(r.selection.range, (0, 0));
        }
        other => panic!("{other:?}"),
    }
}

#[test]
fn ecc_messages_and_image_columns() {
    let fields = FrameFields { block_type: 0, bottom: 1, row: 1, column: 2, minor: 0 };
    assert_eq!(
        bitread::ecc_message(Architecture::Series7, 0x0042_0100, &fields, true),
        "WARNING: ECC verification of frame [  0x420100] BOTTOM Row= 1 Column= 2 Minor= 0 Type=CLB/IO/CLK failed.\n"
    );
    assert_eq!(bitread::pgm_separators(&[0, 1, 2, 0, 1, 0]), vec![3, 5]);
    assert_eq!(bitread::pgm_separators(&[]), Vec::<usize>::new());
}

#[test]
fn source_date_epoch() {
    let env = |value: &[u8]| Env { vars: vec![("SOURCE_DATE_EPOCH".to_string(), value.to_vec())] };
    assert_eq!(Env::default().source_epoch(), Ok(None));
    assert_eq!(env(b"1700000000").source_epoch(), Ok(Some(1_700_000_000)));
    assert_eq!(env(b" \t-5\n").source_epoch(), Ok(Some(-5)));
    assert_eq!(env(b"+7").source_epoch(), Ok(Some(7)));
    assert_eq!(env("\u{3000}12\u{a0}".as_bytes()).source_epoch(), Ok(Some(12)));
    assert_eq!(env(b"-9223372036854775808").source_epoch(), Ok(Some(i64::MIN)));
    assert_eq!(env(b"9223372036854775808").source_epoch(), Err(b"9223372036854775808".to_vec()));
    assert_eq!(env(b"1e9").source_epoch(), Err(b"1e9".to_vec()));
    assert_eq!(env(b"-").source_epoch(), Err(b"-".to_vec()));
    assert_eq!(env(b"").source_epoch(), Err(b"".to_vec()));
    assert_eq!(env(b"\xff1").source_epoch(), Err(b"\xff1".to_vec()));
}

fn run_xc7frames2bit(a: &[&str]) -> Step {
    run(b"xc7frames2bit", &args(a), &Env::default())
}

#[test]
fn errors_without_a_database() {
    match run_xc7frames2bit(&["--part_file=/nonexistent"]) {
        Step::Build(b) => assert_eq!(
            String::from_utf8(part_not_found(&b.part_file)).unwrap(),
            "Part file /nonexistent not found or invalid\n"
        ),
        other => panic!("{other:?}"),
    }
    match run_xc7frames2bit(&["--bogus", "--part_file"]) {
        Step::Exit { code, stderr, .. } => assert_eq!(
            (code, String::from_utf8(stderr).unwrap().as_str()),
            (
                1,
                "ERROR: unknown command line flag 'bogus'\nERROR: flag '--part_file' is missing its argument; flag description: Definition file for target 7-series part\n"
            )
        ),
        other => panic!("{other:?}"),
    }
    // UltraScale is made from a Series7 part; Spartan6 is not supported yet.
    match run_xc7frames2bit(&["--architecture=UltraScale"]) {
        Step::Build(b) => {
            assert_eq!(b.format, FormatChoice { architecture: Architecture::UltraScale, native: false })
        }
        other => panic!("{other:?}"),
    }
    match run_xc7frames2bit(&["--architecture=Spartan6"]) {
        Step::Exit { code, stderr, .. } => {
            assert_eq!(code, 1);
            assert!(String::from_utf8(stderr).unwrap().contains("not supported yet"));
        }
        other => panic!("{other:?}"),
    }
    match bitread::run(b"bitread", &args(&["/nonexistent.bit"]), &Env::default()) {
        BitreadStep::Read(r) => assert_eq!(r.input, Some(b"/nonexistent.bit".to_vec())),
        other => panic!("{other:?}"),
    }
    match bitread::run(b"bitread", &args(&[]), &Env::default()) {
        BitreadStep::Read(r) => assert_eq!(r.input, None),
        other => panic!("{other:?}"),
    }
}

#[test]
fn helpshort_text() {
    match run_xc7frames2bit(&["--helpshort"]) {
        Step::Exit { code, stdout, .. } => {
            assert_eq!(code, 1);
            assert_eq!(
                String::from_utf8(stdout).unwrap(),
                r#"xc7frames2bit: xc7frames2bit

  Flags from tools/xc7frames2bit.cc:
    -architecture (Architecture of the provided bitstream) type: string
      default: "Series7"
    -frm_file (File containing a list of frame deltas to be applied to the base
      bitstream.  Each line in the file is of the form: <frame_address>
      <word1>,...,<word101>.) type: string default: ""
    -output_file (Write bitstream to file) type: string default: ""
    -part_file (Definition file for target 7-series part) type: string
      default: ""
    -part_name (Name of the 7-series part) type: string default: ""
"#
            );
        }
        other => panic!("{other:?}"),
    }
}
