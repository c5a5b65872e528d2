use fasm_cli::argparse::{Outcome, Value, Values};
use fasm_cli::fasm2frames::{os_error_line, parser, path_join, prog_name, start, Environment, Start};
use fasm_cli::pystr::PyStr;
use fasm_cli::uray_fasm2frames::{self, uray_traceback, HELP_ERROR};
use fasm_cli::xcfasm::{self, bit_step, called_process_error, format_arg};

struct Output {
    code: u8,
    stdout: String,
    stderr: String,
}

fn exit_of(start: Start) -> Output {
    match start {
        Start::Exit(e) => Output { code: e.code, stdout: e.stdout, stderr: e.stderr },
        Start::Assemble(_) => panic!("the arguments were accepted"),
    }
}

fn py_args(args: &[&str]) -> Vec<PyStr> {
    args.iter().map(|a| PyStr::from_str(a)).collect()
}

fn run_with(args: &[&str], env: &Environment) -> Output {
    exit_of(start("fasm2frames.py", &py_args(args), env, 80))
}

fn run_tool(args: &[&str]) -> Output {
    run_with(args, &Environment::default())
}

fn values_of(start: Start) -> Values {
    match start {
        Start::Assemble(values) => values,
        Start::Exit(e) => panic!("exit {}: {}", e.code, e.stderr),
    }
}

const HELP_80: &str = r#"usage: fasm2frames.py [-h] --db-root DB_ROOT --part PART [--sparse]
                      [--roi ROI] [--emit_pudc_b_pullup] [--debug]
                      fn_in [fn_out]

Convert FPGA configuration description ("FPGA assembly") into binary frame
equivalent

positional arguments:
  fn_in                 Input FPGA assembly (.fasm) file
  fn_out                Output FPGA frame (.frm) file

options:
  -h, --help            show this help message and exit
  --db-root DB_ROOT     Database root.
  --part PART           Part name. When not given defaults to XRAY_PART env.
                        var.
  --sparse              Don't zero fill all frames
  --roi ROI             ROI design.json file defining which tiles are within
                        the ROI.
  --emit_pudc_b_pullup  Emit an IBUF and PULLUP on the PUDC_B pin if unused
  --debug               Print debug dump
"#;

const USAGE_80: &str = "usage: fasm2frames.py [-h] --db-root DB_ROOT --part PART [--sparse]
                      [--roi ROI] [--emit_pudc_b_pullup] [--debug]
                      fn_in [fn_out]
";

#[test]
fn help() {
    for args in [&["-h"][..], &["--help"], &["--he"], &["a", "b", "-h", "--x"]] {
        let out = run_tool(args);
        assert_eq!((out.code, out.stdout.as_str(), out.stderr.as_str()), (0, HELP_80, ""));
    }
}

#[test]
fn usage_errors() {
    let error = |args: &[&str]| {
        let out = run_tool(args);
        assert_eq!(out.code, 2, "{args:?}");
        assert!(out.stdout.is_empty());
        let message = out.stderr.strip_prefix(USAGE_80).unwrap();
        message.strip_prefix("fasm2frames.py: error: ").unwrap().trim_end().to_owned()
    };
    assert_eq!(error(&[]), "the following arguments are required: --db-root, --part, fn_in");
    assert_eq!(error(&["--db-root", "d", "a"]), "the following arguments are required: --part");
    assert_eq!(error(&["--d", "x"]), "ambiguous option: --d could match --db-root, --debug");
    assert_eq!(error(&["--roi"]), "argument --roi: expected one argument");
    assert_eq!(
        error(&["--db-root", "d", "--part", "p", "a", "--sparse", "b"]),
        "unrecognized arguments: b"
    );
    assert_eq!(error(&["--db-root", "d", "--part", "p", "a", "b", "c"]), "unrecognized arguments: c");
    assert_eq!(
        error(&["--db_root", "d", "--part", "p", "a"]),
        "the following arguments are required: --db-root"
    );
}

#[test]
fn environment_defaults() {
    let env = Environment {
        xray_database_dir: Some(PyStr::from_str("/db")),
        xray_database: Some(PyStr::from_str("artix7")),
        xray_part: Some(PyStr::from_str("xc7a35t")),
    };
    let values = values_of(start("fasm2frames.py", &py_args(&["in.fasm"]), &env, 80));
    assert_eq!(values.str("db_root"), Some(&PyStr::from_str("/db/artix7")));
    assert_eq!(values.str("part"), Some(&PyStr::from_str("xc7a35t")));
    assert_eq!(values.str("fn_in"), Some(&PyStr::from_str("in.fasm")));
    assert_eq!(values.str("fn_out"), Some(&PyStr::from_str("/dev/stdout")));
    assert!(!values.flag("sparse"));
    assert_eq!(values.get("roi"), &Value::Unset);
}

#[test]
fn os_path_join() {
    let j = |a: &str, b: &str| {
        String::from_utf8(path_join(&PyStr::from_str(a), &PyStr::from_str(b)).encode_surrogateescape()).unwrap()
    };
    assert_eq!(j("/a", "b"), "/a/b");
    assert_eq!(j("/a/", "b"), "/a/b");
    assert_eq!(j("/a", "/b"), "/b");
    assert_eq!(j("", "b"), "b");
    assert_eq!(j("a", ""), "a/");
}

#[test]
fn arguments() {
    let parse = |args: &[&str], env: &Environment| {
        let args: Vec<PyStr> = args.iter().map(|a| PyStr::from_str(a)).collect();
        match parser("p", env).parse_args(&args) {
            Outcome::Run(values) => values,
            other => panic!("{other:?}"),
        }
    };
    let s = |v: &Values, d| v.str(d).map(|s| String::from_utf8(s.encode_surrogateescape()).unwrap());
    let v = parse(&["--db=/d", "--pa", "x", "--sp", "--e", "--de", "--r", "r.json", "in"], &Environment::default());
    assert_eq!(s(&v, "db_root").as_deref(), Some("/d"));
    assert_eq!(s(&v, "part").as_deref(), Some("x"));
    assert_eq!(s(&v, "roi").as_deref(), Some("r.json"));
    assert_eq!(s(&v, "fn_in").as_deref(), Some("in"));
    assert_eq!(s(&v, "fn_out").as_deref(), Some("/dev/stdout"));
    assert!(v.flag("sparse") && v.flag("emit_pudc_b_pullup") && v.flag("debug"));
    let v = parse(&["--db-root", "d", "--part", "p", "a", "b"], &Environment::default());
    assert_eq!(s(&v, "fn_out").as_deref(), Some("b"));
    assert!(!v.flag("sparse"));
    assert_eq!(s(&v, "roi"), None);

    // prjxray.util.db_root_arg / part_arg defaults.
    let env = Environment {
        xray_database_dir: Some(PyStr::from_str("/db/")),
        xray_database: Some(PyStr::from_str("artix7")),
        xray_part: Some(PyStr::from_str("xc7a35tcsg324-1")),
    };
    let v = parse(&["a"], &env);
    assert_eq!(s(&v, "db_root").as_deref(), Some("/db/artix7"));
    assert_eq!(s(&v, "part").as_deref(), Some("xc7a35tcsg324-1"));
    let out = run_with(&["-h"], &env);
    assert!(out.stdout.starts_with("usage: fasm2frames.py [-h] [--db-root DB_ROOT] [--part PART] [--sparse]\n"));
    // Only one of the two database variables: --db-root is required.
    let env = Environment { xray_database: Some(PyStr::from_str("artix7")), ..Default::default() };
    let out = run_with(&["--part", "p", "a"], &env);
    assert!(out.stderr.ends_with("error: the following arguments are required: --db-root\n"));
}

#[test]
fn program_names() {
    assert_eq!(prog_name("/usr/bin/fasm2frames"), "fasm2frames");
    assert_eq!(prog_name("fasm2frames.py"), "fasm2frames.py");
    assert_eq!(prog_name("dir/"), "");
    assert_eq!(prog_name(""), "");
}

#[test]
fn uray_help_fails_like_prjuray() {
    let env = Environment::default();
    for args in [&["-h"][..], &["--help"]] {
        let out = exit_of(uray_fasm2frames::start("fasm2frames.py", &py_args(args), &env, 80));
        assert_eq!((out.code, out.stdout.as_str(), out.stderr.as_str()), (1, "", HELP_ERROR));
    }
    let out = exit_of(uray_fasm2frames::start("fasm2frames.py", &py_args(&[]), &env, 80));
    assert_eq!(out.code, 2);
    assert_eq!(
        out.stderr,
        "usage: fasm2frames.py [-h] --db-root DB_ROOT --part PART [--sparse]\n\
         \x20                     [--roi ROI] [--debug] [--dump_bits]\n\
         \x20                     fn_in [fn_out]\n\
         fasm2frames.py: error: the following arguments are required: --db-root, --part, fn_in\n"
    );
}

#[test]
fn uray_tracebacks_name_prjurays_assembler() {
    assert_eq!(
        uray_traceback("prjxray.fasm_assembler.FasmLookupError: X"),
        "utils.fasm_assembler.FasmLookupError: X\n"
    );
    assert_eq!(uray_traceback("KeyError: 'X'"), "KeyError: 'X'\n");
    assert_eq!(uray_traceback("prjxray.fasm_assembler"), "prjxray.fasm_assembler\n");
}

#[test]
fn xcfasm_bitstream_step() {
    let args = py_args(&[
        "--db-root",
        "/db",
        "--part",
        "xc7a35t",
        "--part_file",
        "part.yaml",
        "--fn_in",
        "in.fasm",
        "--bit_out",
        "out.bit",
    ]);
    let values = values_of(xcfasm::start("xcfasm", &args, &Environment::default(), 80));
    assert_eq!(format_arg(&values, "frm_out"), b"None".to_vec());
    assert_eq!(format_arg(&values, "fn_in"), b"in.fasm".to_vec());
    let step = bit_step(&values);
    assert_eq!(step.frm_file, b"in.fasm".to_vec());
    assert_eq!(step.output_file, b"out.bit".to_vec());
    assert_eq!(step.part_name, b"xc7a35t".to_vec());
    assert_eq!(step.part_file, b"part.yaml".to_vec());
    assert_eq!(
        step.command,
        b"xc7frames2bit --frm_file in.fasm --output_file out.bit --part_name xc7a35t --part_file part.yaml"
            .to_vec()
    );
    assert_eq!(
        called_process_error(&step.command, 134),
        b"subprocess.CalledProcessError: Command 'xc7frames2bit --frm_file in.fasm --output_file out.bit --part_name xc7a35t --part_file part.yaml' returned non-zero exit status 134.\n".to_vec()
    );
}

#[test]
fn xcfasm_requires_the_part_file() {
    let out = exit_of(xcfasm::start("xcfasm", &py_args(&["--db-root", "d", "--part", "p"]), &Environment::default(), 80));
    assert_eq!(out.code, 2);
    assert!(out.stderr.ends_with("xcfasm: error: the following arguments are required: --part_file\n"));
}

#[test]
fn os_error_lines() {
    assert_eq!(
        os_error_line("Broken pipe (os error 32)", Some(32)),
        "BrokenPipeError: [Errno 32] Broken pipe\n"
    );
    assert_eq!(
        os_error_line("No space left on device (os error 28)", Some(28)),
        "OSError: [Errno 28] No space left on device\n"
    );
    assert_eq!(os_error_line("failed to fill whole buffer", None), "OSError: failed to fill whole buffer\n");
    assert_eq!(os_error_line("a (os error 1) b (os error 2)", Some(2)), "OSError: [Errno 2] a (os error 1) b\n");
}
