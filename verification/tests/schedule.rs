use rua_install::positions::descending_key;
use rua_install::schedule::copy_package;
use rua_install::schedule::schedule;
use rua_install::schedule::DepthGroup;
use rua_install::schedule::Package;

fn package(pkgbase: &str, depth: i32, split: &str) -> Package {
    Package { pkgbase: pkgbase.to_string(), depth, split: split.to_string() }
}

fn group(depth: i32, packages: Vec<Package>) -> DepthGroup {
    DepthGroup { depth, packages }
}

#[test]
fn nothing_to_schedule() {
    assert_eq!(schedule(&Vec::new()), Vec::<DepthGroup>::new());
}

#[test]
fn single_target_is_one_group_at_depth_zero() {
    let packages = vec![package("foo", 0, "foo")];
    assert_eq!(schedule(&packages), vec![group(0, vec![package("foo", 0, "foo")])]);
}

#[test]
fn dependency_is_scheduled_before_its_dependent() {
    let packages = vec![package("foo", 0, "foo"), package("bar", 1, "bar")];
    assert_eq!(
        schedule(&packages),
        vec![group(1, vec![package("bar", 1, "bar")]), group(0, vec![package("foo", 0, "foo")])]
    );
}

#[test]
fn package_base_is_scheduled_at_its_greatest_depth() {
    let packages = vec![
        package("a", 0, "a"),
        package("b", 1, "b"),
        package("a", 2, "a-docs"),
        package("c", 1, "c"),
        package("d", 0, "d"),
    ];
    assert_eq!(
        schedule(&packages),
        vec![
            group(2, vec![package("a", 2, "a-docs")]),
            group(1, vec![package("b", 1, "b"), package("c", 1, "c")]),
            group(0, vec![package("d", 0, "d")]),
        ]
    );
}

#[test]
fn first_split_at_the_greatest_depth_stands_for_the_base() {
    let packages = vec![
        package("a", 1, "a-one"),
        package("a", 3, "a-two"),
        package("a", 3, "a-three"),
        package("a", 2, "a-four"),
    ];
    assert_eq!(schedule(&packages), vec![group(3, vec![package("a", 3, "a-two")])]);
}

#[test]
fn equal_depths_keep_their_order() {
    let packages = vec![
        package("z", 1, "z"),
        package("m", 1, "m"),
        package("a", 1, "a"),
        package("q", 0, "q"),
        package("b", 0, "b"),
    ];
    assert_eq!(
        schedule(&packages),
        vec![
            group(1, vec![package("z", 1, "z"), package("m", 1, "m"), package("a", 1, "a")]),
            group(0, vec![package("q", 0, "q"), package("b", 0, "b")]),
        ]
    );
}

#[test]
fn depths_with_gaps_and_negative_depths() {
    let packages = vec![
        package("low", i32::MIN, "low"),
        package("mid", -1, "mid"),
        package("top", i32::MAX, "top"),
        package("nil", 0, "nil"),
        package("ten", 10, "ten"),
    ];
    assert_eq!(
        schedule(&packages),
        vec![
            group(i32::MAX, vec![package("top", i32::MAX, "top")]),
            group(10, vec![package("ten", 10, "ten")]),
            group(0, vec![package("nil", 0, "nil")]),
            group(-1, vec![package("mid", -1, "mid")]),
            group(i32::MIN, vec![package("low", i32::MIN, "low")]),
        ]
    );
}

#[test]
fn every_package_base_is_scheduled_once_and_deepest_first() {
    let bases = ["a", "b", "c", "d", "e"];
    let mut packages = Vec::new();
    for i in 0..40 {
        let base = bases[(i * 7) % 5];
        let depth = ((i * 13) % 6) as i32;
        packages.push(package(base, depth, &format!("{}-{}", base, i)));
    }
    let groups = schedule(&packages);
    let mut seen: Vec<String> = Vec::new();
    let mut last_depth: Option<i32> = None;
    for g in &groups {
        assert!(!g.packages.is_empty());
        if let Some(d) = last_depth {
            assert!(g.depth < d);
        }
        last_depth = Some(g.depth);
        for p in &g.packages {
            assert_eq!(p.depth, g.depth);
            assert!(!seen.contains(&p.pkgbase));
            seen.push(p.pkgbase.clone());
            let greatest = packages.iter().filter(|q| q.pkgbase == p.pkgbase).map(|q| q.depth).max();
            assert_eq!(Some(p.depth), greatest);
            let first = packages.iter().find(|q| q.pkgbase == p.pkgbase && q.depth == p.depth);
            assert_eq!(Some(p), first);
        }
    }
    assert_eq!(seen.len(), bases.len());
}

#[test]
fn descending_key_negates_without_overflow() {
    assert_eq!(descending_key(0), 0);
    assert_eq!(descending_key(3), -3);
    assert_eq!(descending_key(-3), 3);
    assert_eq!(descending_key(i32::MAX), -2147483647);
    assert_eq!(descending_key(i32::MIN), 2147483648);
}

#[test]
fn copy_of_a_package_is_equal() {
    let p = package("foo", 2, "foo-docs");
    assert_eq!(copy_package(&p), p);
}
