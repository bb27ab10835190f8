use conkit::error::CliError;
use conkit::paths::{PathRole, ResolvedPath};

fn strings(parts: &[&str]) -> Vec<String> {
    parts.iter().map(|part| (*part).to_owned()).collect()
}

fn resolved(role: PathRole, original: &str, ancestor: &[&str], missing: &[&str]) -> ResolvedPath {
    ResolvedPath::from_resolved_ancestor(role, original.to_owned(), strings(ancestor), strings(missing), false)
}

fn folded(role: PathRole, original: &str, ancestor: &[&str]) -> ResolvedPath {
    ResolvedPath::from_resolved_ancestor(role, original.to_owned(), strings(ancestor), Vec::new(), true)
}

#[test]
fn resolved_paths_compute_relative_location() {
    let contracts = resolved(PathRole::Contracts, "contracts", &["/", "tmp", "t"], &["contracts"]);
    let source = resolved(PathRole::Source, "src", &["/", "tmp", "t"], &["src"]);

    assert_eq!(
        contracts.relative_path_to(&source).expect("relative path"),
        strings(&["..", "src"])
    );
}

#[test]
fn resolved_paths_detect_equality_nesting_missing_components_and_unicode() {
    let root = || resolved(PathRole::Source, "røøt", &["/", "tmp", "røøt"], &[]);
    let same_path = resolved(
        PathRole::Contracts,
        "røøt/missing/../.",
        &["/", "tmp", "røøt"],
        &[".", "..", "missing"],
    );
    assert_eq!(same_path.resolved(), &strings(&["/", "tmp", "røøt"]));
    let nested_path = resolved(
        PathRole::Report,
        "røøt/missing/report.yml",
        &["/", "tmp", "røøt"],
        &["report.yml", "missing"],
    );
    assert_eq!(
        nested_path.resolved(),
        &strings(&["/", "tmp", "røøt", "missing", "report.yml"])
    );
    let sibling_path = resolved(PathRole::Contracts, "sibling", &["/", "tmp", "sibling"], &[]);

    assert!(ResolvedPath::ensure_disjoint(&[root(), same_path]).is_err());
    let error = ResolvedPath::ensure_disjoint(&[root(), nested_path]).expect_err("nested");
    assert!(matches!(
        error,
        CliError::OverlappingPaths {
            first_role: PathRole::Source,
            second_role: PathRole::Report,
            ref first_path,
            ref second_path,
        } if first_path == "røøt" && second_path == "røøt/missing/report.yml"
    ));
    assert!(ResolvedPath::ensure_disjoint(&[root(), sibling_path]).is_ok());
}

#[test]
fn parent_steps_stop_at_the_root() {
    let path = resolved(PathRole::Report, "/../../x", &["/"], &["x", "..", ".."]);
    assert_eq!(path.resolved(), &strings(&["/", "x"]));
    assert!(path.contains(&path));
    assert!(ResolvedPath::components_match("a", "a", false));
    assert!(!ResolvedPath::components_match("a", "A", false));
    assert!(ResolvedPath::components_match("a", "A", true));
    assert!(!ResolvedPath::components_match("ø", "Ø", true));
}

#[test]
fn relative_path_from_a_deeper_location_climbs_and_descends() {
    let origin = resolved(PathRole::Contracts, "a/b/c", &["/", "a", "b", "c"], &[]);
    let target = resolved(PathRole::Source, "a/x", &["/", "a", "x"], &[]);
    assert_eq!(
        origin.relative_path_to(&target).expect("relative path"),
        strings(&["..", "..", "x"])
    );
    assert_eq!(
        target.relative_path_to(&target).expect("same path"),
        Vec::<String>::new()
    );
}

#[test]
fn role_names_are_user_facing() {
    assert_eq!(PathRole::ArchiveDirectory.name(), "archive directory");
    assert_eq!(PathRole::GeneratedOutput.name(), "generated output");
}

#[test]
fn case_folding_hosts_compare_components_up_to_ascii_case() {
    let upper = folded(PathRole::Source, "C:/Work", &["C:\\", "Work"]);
    let lower = folded(PathRole::Contracts, "c:/work/contracts", &["c:\\", "work", "contracts"]);
    assert!(upper.contains(&lower));
    assert!(ResolvedPath::ensure_disjoint(&[upper, lower]).is_err());

    let exact_upper = resolved(PathRole::Source, "/Work", &["/", "Work"], &[]);
    let exact_lower = resolved(PathRole::Contracts, "/work/contracts", &["/", "work", "contracts"], &[]);
    assert!(!exact_upper.contains(&exact_lower));
    assert!(ResolvedPath::ensure_disjoint(&[exact_upper, exact_lower]).is_ok());
}
