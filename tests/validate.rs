use tstick::path::Utf8StemmedPathBuf;
use tstick::validate::validate_duplicate_input_names;

fn check(inputs: &[&str]) -> String {
    let inputs: Vec<Utf8StemmedPathBuf> = inputs
        .iter()
        .map(|path| Utf8StemmedPathBuf::try_from(path.to_string()).unwrap())
        .collect();
    match validate_duplicate_input_names(&inputs) {
        Ok(()) => "Ok(())".to_owned(),
        Err(err) => err.message(),
    }
}

#[test]
fn duplicate_input_names_ok() {
    assert_eq!(check(&["a/b/c", "d/e"]), "Ok(())");
}

#[test]
fn duplicate_input_names_err() {
    assert_eq!(
        check(&["a/b/c", "d/c"]),
        "The following input files have the same name, but they must be unique.\n\
         - c (2 files): [a/b/c, d/c]"
    );
    assert_eq!(
        check(&["b", "b", "a", "d", "d"]),
        "The following input files have the same name, but they must be unique.\n\
         - b (2 files): [b, b]\n\
         - d (2 files): [d, d]"
    );
}

#[test]
fn duplicate_groups_are_sorted_by_stem() {
    let inputs: Vec<Utf8StemmedPathBuf> = ["x/zeta.mp4", "y/alpha.mov", "z/zeta.gif", "alpha.webm", "beta"]
        .iter()
        .map(|path| Utf8StemmedPathBuf::try_from(path.to_string()).unwrap())
        .collect();
    let err = validate_duplicate_input_names(&inputs).unwrap_err();
    let stems: Vec<&str> = err.groups.iter().map(|g| g.stem.as_str()).collect();
    assert_eq!(stems, vec!["alpha", "zeta"]);
    assert_eq!(err.groups[0].paths, vec!["y/alpha.mov".to_string(), "alpha.webm".to_string()]);
    assert_eq!(err.groups[1].paths, vec!["x/zeta.mp4".to_string(), "z/zeta.gif".to_string()]);
    assert_eq!(
        err.message(),
        "The following input files have the same name, but they must be unique.\n\
         - alpha (2 files): [y/alpha.mov, alpha.webm]\n\
         - zeta (2 files): [x/zeta.mp4, z/zeta.gif]"
    );
}

#[test]
fn three_inputs_with_one_stem() {
    let inputs: Vec<Utf8StemmedPathBuf> = ["a/c.mp4", "b/c.mp4", "c"]
        .iter()
        .map(|path| Utf8StemmedPathBuf::try_from(path.to_string()).unwrap())
        .collect();
    let err = validate_duplicate_input_names(&inputs).unwrap_err();
    assert_eq!(err.groups.len(), 1);
    assert_eq!(err.groups[0].paths.len(), 3);
    assert!(err.message().ends_with("- c (3 files): [a/c.mp4, b/c.mp4, c]"));
}

#[test]
fn empty_input_set_is_valid() {
    assert!(validate_duplicate_input_names(&Vec::new()).is_ok());
}

#[test]
fn stem_drops_the_last_extension_only() {
    let p = Utf8StemmedPathBuf::try_from("dir/clip.final.mp4".to_string()).unwrap();
    assert_eq!(p.file_stem(), "clip.final");
    assert_eq!(p.as_path(), "dir/clip.final.mp4");
}

#[test]
fn path_without_stem_is_rejected() {
    assert!(Utf8StemmedPathBuf::try_from("/".to_string()).is_err());
    assert!(Utf8StemmedPathBuf::try_from("a/..".to_string()).is_err());
}
