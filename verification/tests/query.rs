use brainprint_engine::component::FreshnessState;
use brainprint_engine::model::{
    Resource, ResourceId, ResourceKind, ResourceLanguage, ResourceRole, ResourceState,
    SourcePoint, SourceSpan, Symbol, SymbolId, SymbolKind, Visibility,
};
use brainprint_engine::query::{
    coverage_of, CoverageNote, Currentness, FileListing, FileQuery, IndexedResource, Located,
    NotCurrentReason, QueryError, QueryIndex, ResourceLocator, ResourceScope, ResultSource,
    StructuralCapability, StructuralCoverage, StructuralState, SymbolCandidate, SymbolQuery,
    SymbolSelector, DEFAULT_CANDIDATE_LIMIT,
};

const APP_TS: &str = "\
export class App {
  run(): number {
    return 1
  }
}

function helper(): number { return 2 }
";

fn id_of(rel: &str) -> ResourceId {
    let value = rel.bytes().fold(7_u128, |sum, byte| sum * 31 + u128::from(byte));
    ResourceId { value }
}

fn resource(rel: &str) -> Resource {
    let kind = if rel.contains('.') { ResourceKind::File } else { ResourceKind::Directory };
    let language = match rel.rsplit_once('.').map(|(_, extension)| extension) {
        Some("ts") => Some(ResourceLanguage::TypeScript),
        Some("py") => Some(ResourceLanguage::Python),
        Some("svelte") => Some(ResourceLanguage::Svelte),
        _ => None,
    };
    Resource {
        id: id_of(rel),
        path_rel: rel.to_owned(),
        path_key: rel.to_owned(),
        kind,
        role: if rel.ends_with(".md") { ResourceRole::Docs } else { ResourceRole::Source },
        language,
        size_bytes: 1,
        mtime_ns: 0,
        fingerprint: String::new(),
        content_hash: None,
        state: ResourceState::Active,
        resource_revision: format!("rev-{rel}"),
        generated_kind: None,
        container_resource_id: None,
    }
}

fn symbol(
    value: u128,
    rel: &str,
    parent: Option<u128>,
    kind: SymbolKind,
    qualified_name: &str,
    span: (usize, usize),
) -> Symbol {
    Symbol {
        id: SymbolId { value },
        resource_id: id_of(rel),
        parent_id: parent.map(|value| SymbolId { value }),
        kind,
        name: qualified_name.rsplit('.').next().expect("a name").to_owned(),
        qualified_name: qualified_name.to_owned(),
        signature: None,
        visibility: Visibility::Public,
        exported: true,
        span: SourceSpan {
            start_byte: span.0,
            end_byte: span.1,
            start: SourcePoint { line: 0, column: 0 },
            end: SourcePoint { line: 0, column: 0 },
        },
        resource_revision: format!("rev-{rel}"),
        analysis_profile_id: 1,
    }
}

/// From the start of one text of `APP_TS` to the end of another.
fn app_span(from: &str, to: &str) -> (usize, usize) {
    let start = APP_TS.find(from).expect("start");
    (start, start + APP_TS[start..].find(to).expect("end") + to.len())
}

fn row(rel: &str, symbols: Vec<Symbol>) -> IndexedResource {
    let (capability, structural) = match resource(rel).language {
        Some(ResourceLanguage::Svelte) => (
            Some(StructuralCapability::Container),
            Some(StructuralState::ContainerOnly),
        ),
        Some(_) => (Some(StructuralCapability::WholeFile), Some(StructuralState::Complete)),
        None => (None, None),
    };
    IndexedResource::new(resource(rel), capability, structural, symbols)
}

/// A Workspace with several Resources, duplicate basenames, a Svelte
/// container, and published Symbols, handed over in no order.
fn rows() -> Vec<IndexedResource> {
    vec![
        row("ui/Widget.svelte", vec![symbol(
            6,
            "ui/Widget.svelte",
            None,
            SymbolKind::Function,
            "mount",
            (28, 47),
        )]),
        row("src", vec![]),
        row("src/app.ts", vec![
            symbol(
                3,
                "src/app.ts",
                None,
                SymbolKind::Function,
                "helper",
                app_span("function helper", "return 2 }"),
            ),
            symbol(
                2,
                "src/app.ts",
                Some(1),
                SymbolKind::Method,
                "App.run",
                app_span("run(): number {", "}"),
            ),
            symbol(
                1,
                "src/app.ts",
                None,
                SymbolKind::Class,
                "App",
                app_span("class App {", "\n}"),
            ),
        ]),
        row("docs", vec![]),
        row("lib.py", vec![symbol(5, "lib.py", None, SymbolKind::Function, "run", (0, 23))]),
        row("src/util", vec![]),
        row("src/util/app.ts", vec![
            symbol(4, "src/util/app.ts", None, SymbolKind::Function, "run", (7, 42)),
            symbol(7, "src/util/app.ts", None, SymbolKind::Variable, "LIMIT", (50, 66)),
        ]),
        row("ui", vec![]),
        row("docs/readme.md", vec![]),
    ]
}

fn index() -> QueryIndex {
    QueryIndex::from_rows(rows(), Some(FreshnessState::Current))
}

fn paths(listing: &FileListing) -> Vec<&str> {
    listing
        .entries
        .iter()
        .map(|entry| entry.path_rel.as_str())
        .collect()
}

fn qualified(located: &Located<SymbolCandidate>) -> Vec<(&str, &str)> {
    located
        .candidates
        .iter()
        .map(|candidate| {
            (
                candidate.path_rel.as_str(),
                candidate.symbol.qualified_name.as_str(),
            )
        })
        .collect()
}

#[test]
fn root_children_are_answered_from_the_index_with_no_filesystem_left_to_walk() {
    let listing = index().list_files(&FileQuery {
        directory: Some(""),
        ..FileQuery::default()
    });
    assert_eq!(paths(&listing), vec!["docs", "lib.py", "src", "ui"]);
    assert!(listing.currentness.is_current());
    assert_eq!(listing.source, ResultSource::StructuralIndex);
}

#[test]
fn directory_children_recursion_and_path_prefix_narrow_the_listing() {
    let index = index();
    let children = index.list_files(&FileQuery {
        directory: Some("src"),
        ..FileQuery::default()
    });
    assert_eq!(paths(&children), vec!["src/app.ts", "src/util"]);

    let recursive = index.list_files(&FileQuery {
        directory: Some("src"),
        recursive: true,
        ..FileQuery::default()
    });
    assert_eq!(
        paths(&recursive),
        vec!["src/app.ts", "src/util", "src/util/app.ts"]
    );

    let whole = index.list_files(&FileQuery::default());
    assert_eq!(
        paths(&whole),
        vec![
            "docs",
            "docs/readme.md",
            "lib.py",
            "src",
            "src/app.ts",
            "src/util",
            "src/util/app.ts",
            "ui",
            "ui/Widget.svelte",
        ],
        "the default listing is the whole inventory, ordered deterministically"
    );

    let prefixed = index.list_files(&FileQuery {
        path_prefix: Some("src/util"),
        ..FileQuery::default()
    });
    assert_eq!(paths(&prefixed), vec!["src/util", "src/util/app.ts"]);
}

#[test]
fn role_language_and_kind_filters_use_the_stored_classification() {
    let index = index();
    let docs = index.list_files(&FileQuery {
        role: Some(ResourceRole::Docs),
        ..FileQuery::default()
    });
    assert_eq!(paths(&docs), vec!["docs/readme.md"]);

    let python = index.list_files(&FileQuery {
        language: Some(ResourceLanguage::Python),
        ..FileQuery::default()
    });
    assert_eq!(paths(&python), vec!["lib.py"]);

    let directories = index.list_files(&FileQuery {
        kind: Some(ResourceKind::Directory),
        ..FileQuery::default()
    });
    assert_eq!(paths(&directories), vec!["docs", "src", "src/util", "ui"]);
}

#[test]
fn a_listing_stops_at_its_limit_and_says_so() {
    let index = index();
    let two = index.list_files(&FileQuery { limit: Some(2), ..FileQuery::default() });
    assert_eq!(paths(&two), vec!["docs", "docs/readme.md"]);
    assert!(two.truncated);
    let nine = index.list_files(&FileQuery { limit: Some(9), ..FileQuery::default() });
    assert_eq!(nine.entries.len(), 9);
    assert!(!nine.truncated);
    assert_eq!(DEFAULT_CANDIDATE_LIMIT, 200);
}

#[test]
fn a_deleted_resource_leaves_the_current_listing_and_locate_results() {
    let mut rows = rows();
    let doomed = id_of("lib.py");
    for row in rows.iter_mut() {
        if row.resource.id == doomed {
            row.resource.state = ResourceState::Deleted;
            row.resource.resource_revision = "rev-deleted".to_owned();
        }
    }
    let index = QueryIndex::from_rows(rows, Some(FreshnessState::Current));

    let listing = index.list_files(&FileQuery::default());
    assert!(
        !paths(&listing).contains(&"lib.py"),
        "a DELETED tombstone is not part of the current inventory"
    );
    assert!(index
        .locate_resource(ResourceLocator::Id(doomed))
        .candidates
        .is_empty());
    let surviving = index.search_symbols(&SymbolQuery::new(SymbolSelector::Name("run")));
    assert_eq!(
        qualified(&surviving),
        vec![("src/app.ts", "App.run"), ("src/util/app.ts", "run")],
        "a deleted Resource's Symbols are not current locators"
    );
}

#[test]
fn a_resource_is_located_exactly_by_stable_id_and_by_path() {
    let index = index();
    let app = id_of("src/app.ts");

    let by_id = index.locate_resource(ResourceLocator::Id(app));
    assert_eq!(by_id.exact().map(|found| found.id), Some(app));

    let by_path = index.locate_resource(ResourceLocator::Path("src/app.ts"));
    assert_eq!(by_path.exact().map(|found| found.id), Some(app));
    assert!(!by_path.is_ambiguous());

    let missing = index.locate_resource(ResourceLocator::Path("src/nope.ts"));
    assert!(missing.candidates.is_empty() && missing.exact().is_none());
}

#[test]
fn a_duplicate_basename_returns_every_candidate_and_picks_none() {
    let located = index().locate_resource(ResourceLocator::Basename("app.ts"));
    let found: Vec<&str> = located
        .candidates
        .iter()
        .map(|candidate| candidate.path_rel.as_str())
        .collect();
    assert_eq!(found, vec!["src/app.ts", "src/util/app.ts"]);
    assert!(located.is_ambiguous());
    assert!(
        located.exact().is_none(),
        "a basename search never resolves to one arbitrary file"
    );
}

#[test]
fn a_path_prefix_locates_everything_below_it() {
    let located = index().locate_resource(ResourceLocator::PathPrefix("src/u"));
    let found: Vec<&str> = located
        .candidates
        .iter()
        .map(|candidate| candidate.path_rel.as_str())
        .collect();
    assert_eq!(found, vec!["src/util", "src/util/app.ts"]);
    assert!(!located.exact_selector);
}

#[test]
fn a_symbol_is_located_exactly_by_stable_id_and_by_qualified_name() {
    let index = index();
    let by_qualified =
        index.search_symbols(&SymbolQuery::new(SymbolSelector::QualifiedName("App.run")));
    let found = by_qualified.exact().expect("exactly one App.run");
    assert_eq!(found.symbol.kind, SymbolKind::Method);
    assert_eq!(found.path_rel, "src/app.ts");
    assert_eq!(found.coverage, StructuralCoverage::Complete);

    let by_id = index.search_symbols(&SymbolQuery::new(SymbolSelector::Id(found.symbol.id)));
    assert_eq!(
        by_id.exact().map(|candidate| candidate.symbol.id),
        Some(found.symbol.id)
    );
    assert_eq!(
        by_id.exact().map(|candidate| candidate.symbol.parent_id),
        Some(found.symbol.parent_id),
        "the containing declaration's identity travels with the candidate"
    );
}

#[test]
fn same_named_symbols_stay_several_candidates() {
    let located = index().search_symbols(&SymbolQuery::new(SymbolSelector::Name("run")));
    assert_eq!(
        qualified(&located),
        vec![
            ("lib.py", "run"),
            ("src/app.ts", "App.run"),
            ("src/util/app.ts", "run"),
        ]
    );
    assert!(located.is_ambiguous());
    assert!(
        located.exact().is_none(),
        "three declarations named run are three candidates"
    );
}

#[test]
fn a_partial_name_search_matches_substrings_without_reading_source() {
    let located = index().search_symbols(&SymbolQuery::new(SymbolSelector::PartialName("elp")));
    assert_eq!(qualified(&located), vec![("src/app.ts", "helper")]);
    assert!(
        !located.exact_selector,
        "a substring search is not an exact identity"
    );
    let folded = index().search_symbols(&SymbolQuery::new(SymbolSelector::PartialName("ELP")));
    assert_eq!(qualified(&folded), vec![("src/app.ts", "helper")]);
}

#[test]
fn kind_path_scope_and_language_narrow_a_symbol_search() {
    let index = index();
    let methods = index.search_symbols(&SymbolQuery {
        kind: Some(SymbolKind::Method),
        ..SymbolQuery::new(SymbolSelector::Name("run"))
    });
    assert_eq!(qualified(&methods), vec![("src/app.ts", "App.run")]);

    let scoped = index.search_symbols(&SymbolQuery {
        scope: Some(ResourceScope::PathPrefix("src/util")),
        ..SymbolQuery::new(SymbolSelector::Name("run"))
    });
    assert_eq!(qualified(&scoped), vec![("src/util/app.ts", "run")]);

    let by_resource = index.search_symbols(&SymbolQuery {
        scope: Some(ResourceScope::Id(id_of("src/app.ts"))),
        ..SymbolQuery::new(SymbolSelector::PartialName("r"))
    });
    assert_eq!(
        qualified(&by_resource),
        vec![("src/app.ts", "App.run"), ("src/app.ts", "helper")]
    );

    let python = index.search_symbols(&SymbolQuery {
        language: Some(ResourceLanguage::Python),
        ..SymbolQuery::new(SymbolSelector::Name("run"))
    });
    assert_eq!(qualified(&python), vec![("lib.py", "run")]);
}

#[test]
fn a_symbol_search_stops_at_its_limit_and_says_so() {
    let cut = index().search_symbols(&SymbolQuery {
        limit: Some(2),
        ..SymbolQuery::new(SymbolSelector::Name("run"))
    });
    assert_eq!(qualified(&cut), vec![("lib.py", "run"), ("src/app.ts", "App.run")]);
    assert!(cut.truncated);
}

#[test]
fn a_position_resolves_to_the_smallest_containing_declaration() {
    let inside_run = APP_TS.find("return 1").expect("body offset");
    let found = index()
        .symbol_at(id_of("src/app.ts"), inside_run)
        .expect("position");

    let containing = found.containing.expect("a declaration contains it");
    assert_eq!(
        containing.symbol.qualified_name, "App.run",
        "the innermost declaration wins over the class around it"
    );
    let declaration = &APP_TS[containing.symbol.span.start_byte..containing.symbol.span.end_byte];
    assert!(
        declaration.starts_with("run(): number {") && declaration.ends_with('}'),
        "the stored span is the exact declaration: {declaration:?}"
    );
    assert_eq!(found.coverage, StructuralCoverage::Complete);
}

#[test]
fn a_position_no_declaration_contains_is_an_answer_not_a_miss() {
    let between = APP_TS.find("\n\nfunction").expect("gap offset");
    let found = index()
        .symbol_at(id_of("src/app.ts"), between)
        .expect("position");
    assert!(
        found.containing.is_none(),
        "a top-level position has no containing Symbol, which is not a failure"
    );
    assert_eq!(found.coverage, StructuralCoverage::Complete);
    assert!(found.currentness.is_current());
}

#[test]
fn a_position_in_an_unknown_resource_is_an_error() {
    let absent = ResourceId { value: 1 };
    let error = index().symbol_at(absent, 0).expect_err("no such Resource");
    assert_eq!(error, QueryError::UnknownResource { resource_id: absent });
    assert_eq!(error.message(), "no resource row for 1");
}

#[test]
fn a_symbol_whose_resource_revision_moved_on_is_not_a_current_locator() {
    let mut rows = rows();
    for row in rows.iter_mut() {
        if row.resource.path_key == "src/app.ts" {
            row.resource.resource_revision = "rev-moved-on".to_owned();
        }
    }
    let index = QueryIndex::from_rows(rows, Some(FreshnessState::Current));
    let located =
        index.search_symbols(&SymbolQuery::new(SymbolSelector::QualifiedName("App.run")));
    assert!(
        located.candidates.is_empty(),
        "a Symbol extracted from a revision the Resource no longer has is stale"
    );
    assert_eq!(located.last_valid.len(), 1, "it is kept apart rather than dropped");
    assert!(index
        .symbol_at(id_of("src/app.ts"), APP_TS.find("return 1").expect("offset"))
        .expect("position")
        .containing
        .is_none());
}

#[test]
fn a_dirty_resource_index_keeps_the_candidates_and_marks_them_not_current() {
    let index = QueryIndex::from_rows(rows(), Some(FreshnessState::Dirty));
    let located =
        index.search_symbols(&SymbolQuery::new(SymbolSelector::QualifiedName("App.run")));
    let listing = index.list_files(&FileQuery::default());

    assert_eq!(located.candidates.len(), 1, "candidates are not discarded");
    assert_eq!(
        located.currentness,
        Currentness::NotCurrent(NotCurrentReason::ResourceIndexDirty)
    );
    assert!(!listing.entries.is_empty());
    assert_eq!(
        listing.currentness,
        Currentness::NotCurrent(NotCurrentReason::ResourceIndexDirty)
    );
    assert_eq!(
        QueryIndex::from_rows(Vec::new(), None).currentness(),
        Currentness::NotCurrent(NotCurrentReason::ResourceIndexNeverPublished)
    );
}

#[test]
fn a_container_only_resource_with_no_symbols_is_not_a_complete_not_found() {
    let index = index();
    let widget = id_of("ui/Widget.svelte");

    // What the component's script declares is found.
    assert!(
        !index
            .search_symbols(&SymbolQuery {
                scope: Some(ResourceScope::Id(widget)),
                ..SymbolQuery::new(SymbolSelector::Name("mount"))
            })
            .candidates
            .is_empty(),
        "the component's script declares `mount`"
    );

    // And a name it does not declare is still a coverage statement
    // rather than a complete not-found, because a component is more
    // than its script.
    let located = index.search_symbols(&SymbolQuery {
        scope: Some(ResourceScope::Id(widget)),
        ..SymbolQuery::new(SymbolSelector::Name("never_declared"))
    });
    assert!(located.candidates.is_empty());
    assert_eq!(
        located.incomplete_coverage,
        vec![CoverageNote {
            resource_id: widget,
            path_rel: "ui/Widget.svelte".to_owned(),
            coverage: StructuralCoverage::ContainerOnly,
        }],
        "the empty result is explained by coverage, not reported as complete"
    );
    assert_eq!(
        index.symbol_at(widget, 30).expect("position").coverage,
        StructuralCoverage::ContainerOnly
    );
}

#[test]
fn coverage_follows_the_dialect_where_nothing_was_recorded() {
    assert_eq!(
        coverage_of(ResourceKind::Directory, Some(StructuralCapability::WholeFile)),
        StructuralCoverage::Unsupported
    );
    assert_eq!(coverage_of(ResourceKind::File, None), StructuralCoverage::Unsupported);
    assert_eq!(
        coverage_of(ResourceKind::File, Some(StructuralCapability::WholeFile)),
        StructuralCoverage::Complete
    );
    assert_eq!(
        coverage_of(ResourceKind::File, Some(StructuralCapability::Container)),
        StructuralCoverage::ContainerOnly
    );
    assert!(StructuralCoverage::Complete.is_complete());
    assert!(!StructuralCoverage::Partial.is_complete());
    assert!(!SymbolSelector::PartialName("x").is_exact());
    assert!(SymbolSelector::Name("x").is_exact());
    assert!(index().active_resource(id_of("lib.py")).is_some());
}

#[test]
fn hits_come_by_path_and_then_by_where_they_start() {
    let every = SymbolQuery::new(SymbolSelector::PartialName(""));
    let found = index().search_symbols(&every);
    assert_eq!(
        qualified(&found),
        vec![
            ("lib.py", "run"),
            ("src/app.ts", "App"),
            ("src/app.ts", "App.run"),
            ("src/app.ts", "helper"),
            ("src/util/app.ts", "run"),
            ("src/util/app.ts", "LIMIT"),
            ("ui/Widget.svelte", "mount"),
        ]
    );
}

#[test]
fn declarations_are_put_in_order_however_a_row_was_made() {
    let rows = rows()
        .into_iter()
        .map(|mut row| {
            row.symbols.reverse();
            row
        })
        .collect();
    let index = QueryIndex::from_rows(rows, Some(FreshnessState::Current));
    let every = SymbolQuery::new(SymbolSelector::PartialName(""));
    let found = index.search_symbols(&every);
    let expected = self::index().search_symbols(&every);
    assert_eq!(qualified(&found), qualified(&expected));
    assert_eq!(qualified(&found)[1], ("src/app.ts", "App"));
}
