use fasm_cli::gflags::{parse, Flag, FlagType, Outcome, Parsed, Program};
use fasm_cli::xc7frames2bit::Env;

fn program() -> Program {
    Program {
        argv0: b"/bin/tool".to_vec(),
        usage: b"/bin/tool".to_vec(),
        flags: vec![
            Flag {
                name: "name",
                file: "tools/tool.cc",
                ty: FlagType::String,
                default: "",
                help: "A name",
            },
            Flag {
                name: "b",
                file: "tools/tool.cc",
                ty: FlagType::Bool,
                default: "false",
                help: "a bool",
            },
            Flag {
                name: "n",
                file: "tools/tool.cc",
                ty: FlagType::Int32,
                default: "-1",
                help: "a number",
            },
        ],
    }
}

fn run(args: &[&str]) -> Outcome {
    let args: Vec<Vec<u8>> = args.iter().map(|a| a.as_bytes().to_vec()).collect();
    let env = Env {
        vars: vec![("FLAGS_name".to_string(), b"from env".to_vec())],
    };
    parse(&program(), &args, &env)
}

fn ok(args: &[&str]) -> Parsed {
    match run(args) {
        Outcome::Run(p) => p,
        Outcome::Exit { stderr, stdout, .. } => panic!(
            "{args:?}: {}{}",
            String::from_utf8_lossy(&stdout),
            String::from_utf8_lossy(&stderr)
        ),
    }
}

fn err(args: &[&str]) -> String {
    match run(args) {
        Outcome::Exit {
            code: 1, stderr, ..
        } => String::from_utf8(stderr).unwrap(),
        other => panic!("{args:?}: {other:?}"),
    }
}

#[test]
fn values_and_positionals() {
    let p = ok(&["a", "--name", "x", "-b", "c", "-n=0x10", "--", "-d", "e"]);
    assert_eq!(p.string("name"), b"x");
    assert!(p.bool("b"));
    assert_eq!(p.int32("n"), 16);
    let args: Vec<&[u8]> = p.args.iter().map(Vec::as_slice).collect();
    assert_eq!(args, [&b"-d"[..], b"e", b"a", b"c"]);
    let p = ok(&["-nob", "-n", " -5", "-", "--b=No"]);
    assert!(!p.bool("b"));
    assert_eq!(p.int32("n"), -5);
    assert_eq!(p.args, [b"-".to_vec()]);
    assert!(ok(&["--b=YES"]).bool("b"));
    assert_eq!(ok(&["--fromenv=name"]).string("name"), b"from env");
    assert_eq!(ok(&["--bogus", "--undefok=bogus"]).args.len(), 0);
    assert_eq!(ok(&["-name="]).string("name"), b"");
}

#[test]
fn gflags_errors() {
    assert_eq!(
        err(&["--bogus"]),
        "ERROR: unknown command line flag 'bogus'\n"
    );
    assert_eq!(
        err(&["--noname"]),
        "ERROR: boolean value (noname) specified for string command line flag\n"
    );
    assert_eq!(
        err(&["--name"]),
        "ERROR: flag '--name' is missing its argument; flag description: A name\n"
    );
    assert_eq!(
        err(&["a", "--name"]),
        "ERROR: flag '--name' is missing its argument; flag description: A name\n"
    );
    assert_eq!(
        err(&["--b=2", "-n=x", "--zz", "--aa"]),
        "ERROR: unknown command line flag 'aa'\n\
         ERROR: illegal value '2' specified for bool flag 'b'\n\
         ERROR: illegal value 'x' specified for int32 flag 'n'\n\
         ERROR: unknown command line flag 'zz'\n"
    );
    assert_eq!(
        err(&["-n=2147483648"]),
        "ERROR: illegal value '2147483648' specified for int32 flag 'n'\n"
    );
    assert_eq!(
        err(&["-n=1 "]),
        "ERROR: illegal value '1 ' specified for int32 flag 'n'\n"
    );
    assert_eq!(
        err(&["--fromenv=b"]),
        "ERROR: FLAGS_b not found in environment\n"
    );
    assert_eq!(err(&["--undefok=,"]), "ERROR: empty flaglist entry\n");
}

#[test]
fn gflags_help() {
    let Outcome::Exit { code, stdout, .. } = run(&["--helpshort", "--name", "abc"]) else {
        panic!()
    };
    assert_eq!(code, 1);
    assert_eq!(
        String::from_utf8(stdout).unwrap(),
        "tool: /bin/tool\n\n  Flags from tools/tool.cc:\n    -b (a bool) type: bool default: false\n    -n (a number) type: int32 default: -1\n    -name (A name) type: string default: \"\" currently: \"abc\"\n"
    );
    let Outcome::Exit { code, stdout, .. } = run(&["--version"]) else {
        panic!()
    };
    assert_eq!((code, stdout), (0, b"tool\n".to_vec()));
    let Outcome::Exit { stdout, .. } = run(&["--helpmatch=zzz"]) else {
        panic!()
    };
    assert_eq!(
        String::from_utf8(stdout).unwrap(),
        "tool: /bin/tool\n\n  No modules matched: use -help\n"
    );
    let Outcome::Exit { stdout, .. } = run(&["--help"]) else {
        panic!()
    };
    let text = String::from_utf8(stdout).unwrap();
    assert!(text.contains(
        "    -undefok (comma-separated list of flag names that it is okay to specify on\n      the command line even if the program does not define a flag with that\n      name.  IMPORTANT: flags in this list that have arguments MUST use the\n      flag=value format) type: string default: \"\"\n"
    ));
    assert!(text.contains("      type: bool default: false currently: true\n"));
    assert!(text.contains("\n\n\n\n  Flags from tools/tool.cc:\n"));
}

#[test]
fn repeated_flags_last_one_wins() {
    let p = ok(&["--name=a", "-n", "3", "--name", "b", "-n=4"]);
    assert_eq!(p.string("name"), b"b");
    assert_eq!(p.int32("n"), 4);
    assert!(!p.bool("b"));
}

#[test]
fn errors_are_sorted_by_flag_name() {
    assert_eq!(
        err(&["--zz", "--n=x", "--aa"]),
        "ERROR: unknown command line flag 'aa'\n\
         ERROR: illegal value 'x' specified for int32 flag 'n'\n\
         ERROR: unknown command line flag 'zz'\n"
    );
}

#[test]
fn non_flags_pass_and_double_dash_ends_flags() {
    let p = ok(&["a", "-", "b"]);
    let args: Vec<&[u8]> = p.args.iter().map(Vec::as_slice).collect();
    assert_eq!(args, [&b"a"[..], b"-", b"b"]);
    assert_eq!(p.string("name"), b"");
    assert_eq!(p.int32("n"), -1);
    let p = ok(&["--", "--name=x", "-b", "c"]);
    let args: Vec<&[u8]> = p.args.iter().map(Vec::as_slice).collect();
    assert_eq!(args, [&b"--name=x"[..], b"-b", b"c"]);
    assert_eq!(p.string("name"), b"");
    assert!(!p.bool("b"));
}
