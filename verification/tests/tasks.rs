use sbom_insight::frequency::{Entry, FrequencyTable};
use sbom_insight::sbom::{ExternalReference, Package, Sbom};
use sbom_insight::tasks::main_cpe::MainCpe;
use sbom_insight::tasks::main_cpe_db::MainCpeDb;
use sbom_insight::tasks::unique_main::UniqueMainPackages;
use sbom_insight::tasks::unique_names::UniqueNames;
use sbom_insight::tasks::{cpes_of, described, find_package};
use sbom_insight::utils::cpe_dictionary::{CpeItem, CpeList, Generator, Title};
use sbom_insight::utils::vex::{collect_cpe, Advisory, Branch, CollectCpe, Product, ProductTree};

fn entry(key: &str, count: usize) -> Entry {
    Entry { key: key.to_string(), count }
}

fn strings(texts: &[&str]) -> Vec<String> {
    texts.iter().map(|t| t.to_string()).collect()
}

fn reference(kind: &str, locator: &str) -> ExternalReference {
    ExternalReference { reference_type: kind.to_string(), reference_locator: locator.to_string() }
}

fn package(id: &str, name: &str, references: Vec<ExternalReference>) -> Package {
    Package {
        package_spdx_identifier: id.to_string(),
        package_name: name.to_string(),
        external_reference: references,
    }
}

fn sbom(name: &str, describes: &[&str], packages: Vec<Package>) -> Sbom {
    Sbom {
        document_name: name.to_string(),
        document_describes: strings(describes),
        package_information: packages,
    }
}

fn product() -> Sbom {
    sbom(
        "product",
        &["SPDXRef-main", "SPDXRef-lib", "SPDXRef-main", "SPDXRef-gone", "SPDXRef-plain"],
        vec![
            package(
                "SPDXRef-main",
                "main",
                vec![
                    reference("cpe22Type", "cpe:/a:acme:main:1"),
                    reference("purl", "pkg:generic/main@1"),
                    reference("cpe22Type", "cpe:/a:acme:main_suite:1"),
                ],
            ),
            package("SPDXRef-lib", "lib", vec![reference("cpe22Type", "cpe:/a:acme:main:1")]),
            package("SPDXRef-plain", "plain", vec![reference("cpe23Type", "cpe:2.3:a:acme:plain")]),
            package("SPDXRef-main", "shadowed", vec![reference("cpe22Type", "cpe:/a:acme:shadow")]),
        ],
    )
}

fn dictionary() -> CpeList {
    CpeList {
        generator: Generator {
            product_name: String::new(),
            product_version: String::new(),
            schema_version: String::new(),
            timestamp: String::new(),
        },
        items: vec![CpeItem {
            name: "cpe:/a:acme:main:1".to_string(),
            title: vec![
                Title { lang: "de_DE".to_string(), title: "Hauptsache".to_string() },
                Title { lang: "en_US".to_string(), title: "Acme Main 1".to_string() },
            ],
        }],
    }
}

#[test]
fn described_names_each_package_once() {
    assert_eq!(
        described(&product()),
        strings(&["SPDXRef-gone", "SPDXRef-lib", "SPDXRef-main", "SPDXRef-plain"])
    );
    assert!(described(&sbom("none", &[], Vec::new())).is_empty());
    assert_eq!(
        described(&sbom("some", &["b", "a", "c", "a", "B", "", "b", "ab"], Vec::new())),
        strings(&["", "B", "a", "ab", "b", "c"])
    );
}

#[test]
fn find_package_finds_the_first_with_the_identifier() {
    let document = product();
    assert_eq!(find_package(&document, "SPDXRef-main").unwrap().package_name, "main");
    assert_eq!(find_package(&document, "SPDXRef-plain").unwrap().package_name, "plain");
    assert!(find_package(&document, "SPDXRef-gone").is_none());
}

#[test]
fn cpes_of_picks_the_references_of_the_kind() {
    let document = product();
    assert_eq!(
        cpes_of(&document.package_information[0]),
        strings(&["cpe:/a:acme:main:1", "cpe:/a:acme:main_suite:1"])
    );
    assert!(cpes_of(&document.package_information[2]).is_empty());
}

#[test]
fn main_cpe_counts_identifiers_and_notes() {
    let mut task = MainCpe::new();
    assert_eq!(task.process(&product()), Ok(()));
    assert_eq!(
        task.map.entries(),
        &vec![
            entry("INVALID-PACKAGE-ID", 1),
            entry("NO-CPE", 1),
            entry("cpe:/a:acme:main:1", 2),
            entry("cpe:/a:acme:main_suite:1", 1),
        ]
    );
}

#[test]
fn main_cpe_notes_a_document_about_nothing() {
    let mut task = MainCpe::default();
    let about_nothing = sbom("empty", &[], vec![package("SPDXRef-a", "a", Vec::new())]);
    assert_eq!(task.process(&about_nothing), Ok(()));
    assert_eq!(task.process(&about_nothing), Ok(()));
    assert_eq!(task.finalize(), vec![entry("MISSING-MAIN-PACKAGE", 2)]);
}

#[test]
fn main_cpe_adds_up_over_documents() {
    let mut task = MainCpe::new();
    assert_eq!(task.process(&product()), Ok(()));
    assert_eq!(task.process(&product()), Ok(()));
    assert_eq!(task.process(&sbom("other", &["SPDXRef-x"], vec![package("SPDXRef-x", "x", Vec::new())])), Ok(()));
    assert_eq!(task.map.get("cpe:/a:acme:main:1"), 4);
    assert_eq!(task.map.get("NO-CPE"), 3);
    assert_eq!(task.map.get("INVALID-PACKAGE-ID"), 2);
    assert_eq!(task.map.len(), 4);
}

#[test]
fn main_cpe_stops_at_a_full_count() {
    let mut task = MainCpe {
        map: FrequencyTable::from_entries(vec![entry("cpe:/a:acme:main_suite:1", usize::MAX)]).unwrap(),
    };
    let error = task.process(&product()).unwrap_err();
    assert_eq!(error.key, "cpe:/a:acme:main_suite:1");
    assert_eq!(
        task.map.entries(),
        &vec![
            entry("INVALID-PACKAGE-ID", 1),
            entry("cpe:/a:acme:main:1", 2),
            entry("cpe:/a:acme:main_suite:1", usize::MAX),
        ]
    );
}

#[test]
fn main_cpe_db_counts_titles() {
    let mut task = MainCpeDb::new(dictionary());
    assert_eq!(task.process(&product()), Ok(()));
    assert_eq!(
        task.finalize(),
        vec![
            entry("Acme Main 1", 2),
            entry("INVALID-PACKAGE-ID", 1),
            entry("MISSING TITLE", 1),
            entry("NO-CPE", 1),
        ]
    );
}

#[test]
fn main_cpe_db_notes_a_document_about_nothing() {
    let mut task = MainCpeDb::new(dictionary());
    assert_eq!(task.process(&sbom("empty", &[], Vec::new())), Ok(()));
    assert_eq!(task.finalize(), vec![entry("MISSING-MAIN-PACKAGE", 1)]);
}

#[test]
fn unique_main_counts_package_names() {
    let mut task = UniqueMainPackages::new();
    assert_eq!(task.process(&product()), Ok(()));
    assert_eq!(task.process(&sbom("second", &["SPDXRef-1"], vec![package("SPDXRef-1", "main", Vec::new())])), Ok(()));
    assert_eq!(
        task.finalize(),
        vec![entry("SPDXRef-gone", 1), entry("lib", 1), entry("main", 2), entry("plain", 1)]
    );
}

#[test]
fn unique_main_looks_the_word_for_a_missing_package_up() {
    let mut task = UniqueMainPackages::default();
    assert_eq!(task.process(&sbom("empty", &[], Vec::new())), Ok(()));
    let named = sbom("named", &[], vec![package("MISSING-MAIN-PACKAGE", "odd", Vec::new())]);
    assert_eq!(task.process(&named), Ok(()));
    assert_eq!(task.finalize(), vec![entry("MISSING-MAIN-PACKAGE", 1), entry("odd", 1)]);
}

#[test]
fn unique_names_collects_each_name_once() {
    let mut task = UniqueNames::new();
    for name in ["zeta", "alpha", "zeta", "mid", "alpha"] {
        assert_eq!(task.process(&sbom(name, &[], Vec::new())), Ok(()));
    }
    assert_eq!(task.finalize(), strings(&["alpha", "mid", "zeta"]));
    assert!(UniqueNames::default().finalize().is_empty());
}

fn named(cpe: &str) -> Product {
    Product { cpe: Some(cpe.to_string()) }
}

fn leaf(cpe: &str) -> Branch {
    Branch { product: Some(named(cpe)), branches: Vec::new() }
}

fn advisory() -> Advisory {
    Advisory {
        product_tree: Some(ProductTree {
            branches: vec![
                Branch {
                    product: None,
                    branches: vec![
                        Branch {
                            product: Some(named("cpe:/a:x")),
                            branches: vec![leaf("cpe:/a:x:1"), leaf("cpe:/a:x:2")],
                        },
                        Branch { product: Some(Product { cpe: None }), branches: Vec::new() },
                        leaf("cpe:/a:y"),
                    ],
                },
                leaf("cpe:/a:x"),
            ],
            full_product_names: vec![named("cpe:/a:full"), Product { cpe: None }],
            relationships: vec![named("cpe:/a:x"), named("cpe:/a:related")],
        }),
    }
}

#[test]
fn collect_cpe_walks_branches_then_names_then_relationships() {
    assert_eq!(
        collect_cpe(&advisory()),
        strings(&[
            "cpe:/a:x",
            "cpe:/a:x:1",
            "cpe:/a:x:2",
            "cpe:/a:y",
            "cpe:/a:x",
            "cpe:/a:full",
            "cpe:/a:x",
            "cpe:/a:related",
        ])
    );
}

#[test]
fn collect_cpe_finds_nothing_without_a_tree_or_products() {
    assert!(collect_cpe(&Advisory { product_tree: None }).is_empty());
    let bare = Advisory {
        product_tree: Some(ProductTree {
            branches: vec![Branch { product: None, branches: Vec::new() }],
            full_product_names: Vec::new(),
            relationships: Vec::new(),
        }),
    };
    assert!(collect_cpe(&bare).is_empty());
}

#[test]
fn collect_cpe_counts_what_advisories_name() {
    let mut task = CollectCpe::new();
    assert_eq!(task.process(&advisory()), Ok(()));
    assert_eq!(task.process(&Advisory { product_tree: None }), Ok(()));
    assert_eq!(task.process(&advisory()), Ok(()));
    assert_eq!(task.map.get("cpe:/a:x"), 6);
    assert_eq!(task.map.get("cpe:/a:related"), 2);
    assert_eq!(task.map.len(), 6);
    assert_eq!(CollectCpe::default().finalize(), Vec::new());
}

#[test]
fn collect_cpe_stops_at_a_full_count() {
    let mut task = CollectCpe {
        map: FrequencyTable::from_entries(vec![entry("cpe:/a:y", usize::MAX)]).unwrap(),
    };
    let error = task.process(&advisory()).unwrap_err();
    assert_eq!(error.key, "cpe:/a:y");
    assert_eq!(
        task.finalize(),
        vec![entry("cpe:/a:x", 1), entry("cpe:/a:x:1", 1), entry("cpe:/a:x:2", 1), entry("cpe:/a:y", usize::MAX)]
    );
}
