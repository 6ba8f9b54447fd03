use bundler_core::diff::{DiffResult, ModuleGroup};
use bundler_core::graph::{EdgeKind, EdgeMeta, ModuleGraph};
use bundler_core::hmr::render_and_generate_update_resource;
use bundler_core::ids::ModuleId;
use bundler_core::module::{Module, ModuleType};
use bundler_core::pot::{ResourcePot, ResourcePotMap, ResourcePotType};
use bundler_core::regenerate::{
    clear_resource_pot_of_modules_in_module_groups, regenerate_resources_for_affected_module_groups,
    update_resource_content, StructuralError,
};
use bundler_core::resource::{Resource, ResourceOrigin, ResourceType};
use bundler_core::scoper::{copy_module_deeply, handle_dynamic_input, DynamicInput};
use bundler_core::script_meta::{AstModule, Comment, CommentsMetaData, ModuleSystem, ScriptModuleMetaData};
use bundler_core::store::ResourceStore;

fn id(path: &str) -> ModuleId {
    ModuleId::from_path(path.to_string())
}

fn meta(spec: &str) -> EdgeMeta {
    EdgeMeta { specifier: spec.to_string(), kind: EdgeKind::Import }
}

fn script(path: &str) -> Module {
    Module::new(id(path))
}

#[test]
fn scoping_renames_exclusive_dependency() {
    // entry A depends on B; B has one dependent
    let mut g = ModuleGraph::new();
    g.add_module(script("A"));
    g.add_module(script("B"));
    g.add_edge(&id("A"), &id("B"), meta("./b"));

    let changed = copy_module_deeply(id("A"), &"s1".to_string(), &mut g);
    assert!(changed);

    let scoped = id("B").scoped(&"s1".to_string());
    assert!(g.module(&id("B")).is_none());
    let b = g.module(&scoped).expect("scoped module must exist");
    assert!(matches!(b.module_type, ModuleType::Custom(ref s) if s == "s1"));
    assert!(g.has_edge(&id("A"), &scoped));

    // re-running the scoper with the same scope changes nothing
    let changed_again = copy_module_deeply(id("A"), &"s1".to_string(), &mut g);
    assert!(!changed_again);
}

#[test]
fn scoping_clones_shared_dependency() {
    // B has dependents A1 and A2; scoping A1 clones B, leaves A2 -> B alone
    let mut g = ModuleGraph::new();
    g.add_module(script("A1"));
    g.add_module(script("A2"));
    g.add_module(script("B"));
    g.add_edge(&id("A1"), &id("B"), meta("./b"));
    g.add_edge(&id("A2"), &id("B"), meta("./b"));

    let changed = copy_module_deeply(id("A1"), &"s1".to_string(), &mut g);
    assert!(changed);

    let scoped = id("B").scoped(&"s1".to_string());
    // the clone exists and is reachable only from A1
    assert!(g.module(&scoped).is_some());
    let dependents = g.dependents_ids(&scoped);
    assert_eq!(dependents.len(), 1);
    assert!(dependents[0] == id("A1"));
    // the original is untouched and still reachable from A2
    let b = g.module(&id("B")).expect("original must survive");
    assert!(matches!(b.module_type, ModuleType::Script));
    assert!(g.has_edge(&id("A2"), &id("B")));
    assert!(!g.has_edge(&id("A1"), &id("B")));
}

#[test]
fn scoping_never_touches_other_asset_kinds() {
    let mut g = ModuleGraph::new();
    g.add_module(script("A"));
    let mut c = script("C");
    c.module_type = ModuleType::Asset;
    g.add_module(c);
    g.add_edge(&id("A"), &id("C"), meta("./c.png"));

    copy_module_deeply(id("A"), &"s1".to_string(), &mut g);

    let scoped = id("C").scoped(&"s1".to_string());
    assert!(g.module(&scoped).is_none());
    let c = g.module(&id("C")).expect("asset must survive unscoped");
    assert!(matches!(c.module_type, ModuleType::Asset));
    assert!(g.has_edge(&id("A"), &id("C")));
}

#[test]
fn dynamic_input_scopes_named_entry() {
    let mut g = ModuleGraph::new();
    g.add_module(script("A"));
    g.add_module(script("B"));
    g.add_edge(&id("A"), &id("B"), meta("./b"));
    g.add_entry(id("A"), "main".to_string());

    let inputs = vec![
        DynamicInput { name: "other".to_string(), scope: None },
        DynamicInput { name: "main".to_string(), scope: Some("srv".to_string()) },
    ];
    let handled = handle_dynamic_input(&mut g, &inputs);
    assert!(handled);
    assert!(g.module(&id("B").scoped(&"srv".to_string())).is_some());

    // a second run finds everything scoped already and reports nothing
    assert!(!handle_dynamic_input(&mut g, &inputs));

    // with no scoped input, or no entry under the input's name, nothing happens
    let mut g2 = ModuleGraph::new();
    g2.add_module(script("A"));
    g2.add_entry(id("A"), "main".to_string());
    let none = vec![DynamicInput { name: "main".to_string(), scope: None }];
    assert!(!handle_dynamic_input(&mut g2, &none));
    let unmatched = vec![DynamicInput { name: "ghost".to_string(), scope: Some("s".to_string()) }];
    assert!(!handle_dynamic_input(&mut g2, &unmatched));
}

fn pot_resource(name: &str, pot: &str) -> Resource {
    Resource {
        name: name.to_string(),
        bytes: vec![1, 2, 3],
        emitted: false,
        resource_type: ResourceType::Js,
        origin: ResourceOrigin::ResourcePot(pot.to_string()),
    }
}

#[test]
fn empty_diff_affects_exactly_the_updated_modules_pots() {
    let mut g = ModuleGraph::new();
    let mut m = script("M");
    m.resource_pot = Some("p1".to_string());
    g.add_module(m);

    let mut pots = ResourcePotMap::new();
    let mut p1 = ResourcePot::new("p1".to_string(), ResourcePotType::Js);
    p1.add_module(id("M"));
    p1.resources.push("r1".to_string());
    assert!(pots.add_pot(p1).is_ok());
    let p2 = ResourcePot::new("p2".to_string(), ResourcePotType::Js);
    assert!(pots.add_pot(p2).is_ok());

    let mut store = ResourceStore::new();
    store.insert(pot_resource("r1", "p1"));
    store.insert(pot_resource("r2", "p2"));

    let diff = DiffResult::new();
    assert!(diff.is_empty());
    let updated = vec![id("M")];
    let affected = regenerate_resources_for_affected_module_groups(
        &diff,
        &updated,
        vec!["ignored".to_string()],
        &mut g,
        &mut pots,
        &mut store,
    )
    .expect("regeneration must succeed");

    // membership recomputation skipped: exactly the updated module's pot
    assert_eq!(affected.len(), 1);
    assert_eq!(affected[0], "p1");
    // stale resources of p1 are gone, p2's artifact is untouched
    assert!(store.resources.iter().all(|r| !matches!(
        r.origin,
        ResourceOrigin::ResourcePot(ref p) if p == "p1"
    )));
    assert_eq!(store.resources.len(), 1);
    assert_eq!(store.resources[0].name, "r2");
    // p1's resource list is cleared
    assert_eq!(pots.resource_pot(&"p1".to_string()).unwrap().resources.len(), 0);
}

#[test]
fn structural_errors_are_reported() {
    let mut g = ModuleGraph::new();
    let mut pots = ResourcePotMap::new();
    let mut store = ResourceStore::new();
    let diff = DiffResult::new();

    let r = regenerate_resources_for_affected_module_groups(
        &diff,
        &vec![id("ghost")],
        vec![],
        &mut g,
        &mut pots,
        &mut store,
    );
    assert!(matches!(r, Err(StructuralError::MissingModule(_))));

    let mut g2 = ModuleGraph::new();
    g2.add_module(script("M"));
    let r2 = regenerate_resources_for_affected_module_groups(
        &diff,
        &vec![id("M")],
        vec![],
        &mut g2,
        &mut pots,
        &mut store,
    );
    assert!(matches!(r2, Err(StructuralError::ModuleWithoutPot(_))));

    let mut g3 = ModuleGraph::new();
    let mut m = script("M");
    m.resource_pot = Some("nowhere".to_string());
    g3.add_module(m);
    let r3 = regenerate_resources_for_affected_module_groups(
        &diff,
        &vec![id("M")],
        vec![],
        &mut g3,
        &mut pots,
        &mut store,
    );
    assert!(matches!(r3, Err(StructuralError::MissingResourcePot(_))));
}

#[test]
fn clearing_groups_resets_pot_links() {
    let mut g = ModuleGraph::new();
    let mut m = script("M");
    m.resource_pot = Some("p1".to_string());
    g.add_module(m);
    let mut n = script("N");
    n.resource_pot = Some("p2".to_string());
    g.add_module(n);

    let groups = vec![ModuleGroup { id: "g1".to_string(), modules: vec![id("M")] }];
    clear_resource_pot_of_modules_in_module_groups(&groups, &mut g);

    assert!(g.module(&id("M")).unwrap().resource_pot.is_none());
    assert_eq!(g.module(&id("N")).unwrap().resource_pot.as_deref(), Some("p2"));
}

#[test]
fn update_pots_split_changed_modules_by_immutability() {
    let mut g = ModuleGraph::new();
    let mut vendor = script("vendor");
    vendor.immutable = true;
    g.add_module(vendor);
    g.add_module(script("app"));
    let mut ext = script("ext");
    ext.external = true;
    g.add_module(ext);

    let mut diff = DiffResult::new();
    diff.added_modules.push(id("vendor"));
    let updated = vec![id("app"), id("ext")];

    let (im, mu) = render_and_generate_update_resource(&updated, &diff, &g)
        .expect("all modules exist");
    assert!(im.immutable);
    assert!(!mu.immutable);
    assert_eq!(im.modules.len(), 1);
    assert!(im.modules[0] == id("vendor"));
    assert_eq!(mu.modules.len(), 1);
    assert!(mu.modules[0] == id("app"));

    // a missing module is a structural error
    let bad = vec![id("ghost")];
    assert!(matches!(
        render_and_generate_update_resource(&bad, &diff, &g),
        Err(StructuralError::MissingModule(_))
    ));
}

#[test]
fn update_payload_defaults_to_empty_object() {
    assert_eq!(update_resource_content(None), "{}");
    assert_eq!(update_resource_content(Some("code();".to_string())), "code();");
}

#[test]
fn resource_type_names_serialize_lower_camel() {
    assert_eq!(ResourceType::Runtime.to_string(), "runtime");
    assert_eq!(ResourceType::Js.to_string(), "js");
    assert_eq!(ResourceType::Css.to_string(), "css");
    assert_eq!(ResourceType::Html.to_string(), "html");
    assert_eq!(ResourceType::Custom("worker".to_string()).to_string(), "worker");
    assert_eq!(ResourceType::Asset("png".to_string()).to_string(), "png");
}

#[test]
fn resource_type_round_trips_known_names() {
    assert!(matches!(ResourceType::from("js".to_string()), ResourceType::Js));
    assert!(matches!(ResourceType::from("css".to_string()), ResourceType::Css));
    assert!(matches!(ResourceType::from("html".to_string()), ResourceType::Html));
    assert!(matches!(ResourceType::from("runtime".to_string()), ResourceType::Runtime));
    assert!(matches!(
        ResourceType::from("wasm".to_string()),
        ResourceType::Custom(ref s) if s == "wasm"
    ));
}

#[test]
fn resource_type_extensions_and_tags() {
    assert_eq!(ResourceType::Runtime.to_ext(), "js");
    assert_eq!(ResourceType::Js.to_ext(), "js");
    assert_eq!(ResourceType::Css.to_ext(), "css");
    assert_eq!(ResourceType::Html.to_ext(), "html");
    assert_eq!(ResourceType::SourceMap("m".to_string()).to_ext(), "map");
    assert_eq!(ResourceType::Asset("png".to_string()).to_ext(), "png");

    assert_eq!(ResourceType::Runtime.to_html_tag(), "script");
    assert_eq!(ResourceType::Js.to_html_tag(), "script");
    assert_eq!(ResourceType::Css.to_html_tag(), "link");
    assert_eq!(ResourceType::Html.to_html_tag(), "html");
}

#[test]
fn resource_origin_accessors() {
    let pot = ResourceOrigin::ResourcePot("p".to_string());
    assert_eq!(pot.as_resource_pot(), "p");
    let module = ResourceOrigin::Module(id("m"));
    assert!(*module.as_module() == id("m"));
}

#[test]
fn default_resource_is_unknown() {
    let r = Resource::default();
    assert_eq!(r.name, "unknown");
    assert!(r.bytes.is_empty());
    assert!(!r.emitted);
    assert!(matches!(r.resource_type, ResourceType::Custom(ref s) if s == "unknown"));
    assert!(matches!(r.origin, ResourceOrigin::Module(_)));
}

#[test]
fn module_system_merge_combines_observations() {
    assert!(matches!(ModuleSystem::EsModule.merge(ModuleSystem::CommonJs), ModuleSystem::Hybrid));
    assert!(matches!(ModuleSystem::CommonJs.merge(ModuleSystem::EsModule), ModuleSystem::Hybrid));
    assert!(matches!(ModuleSystem::EsModule.merge(ModuleSystem::UnInitial), ModuleSystem::EsModule));
    assert!(matches!(ModuleSystem::UnInitial.merge(ModuleSystem::CommonJs), ModuleSystem::CommonJs));
    assert!(matches!(ModuleSystem::Hybrid.merge(ModuleSystem::EsModule), ModuleSystem::Hybrid));
    assert!(matches!(
        ModuleSystem::Custom("x".to_string()).merge(ModuleSystem::EsModule),
        ModuleSystem::EsModule
    ));
    assert!(matches!(
        ModuleSystem::EsModule.merge(ModuleSystem::Custom("x".to_string())),
        ModuleSystem::Custom(ref s) if s == "x"
    ));
}

#[test]
fn script_meta_ast_and_comments_move_in_and_out() {
    let mut meta = ScriptModuleMetaData::default();
    assert!(meta.is_esm());
    assert!(!meta.is_cjs());
    assert!(!meta.is_hybrid());

    meta.set_ast(AstModule { body: vec![7, 8], shebang: None });
    let ast = meta.take_ast();
    assert_eq!(ast.body, vec![7, 8]);
    assert!(meta.take_ast().body.is_empty());

    meta.module_system = ModuleSystem::CommonJs;
    assert!(meta.is_cjs());

    meta.is_async = true;
    let copy = meta.clone();
    assert!(!copy.is_async);
    assert!(matches!(copy.module_system, ModuleSystem::CommonJs));
}

#[test]
fn pot_map_refuses_double_ownership() {
    let mut pots = ResourcePotMap::new();
    let mut p1 = ResourcePot::new("p1".to_string(), ResourcePotType::Js);
    p1.add_module(id("M"));
    assert!(pots.add_pot(p1).is_ok());

    // same id refused
    let p1_again = ResourcePot::new("p1".to_string(), ResourcePotType::Js);
    assert!(pots.add_pot(p1_again).is_err());

    // a pot claiming an already-owned module refused
    let mut p2 = ResourcePot::new("p2".to_string(), ResourcePotType::Css);
    p2.add_module(id("M"));
    assert!(pots.add_pot(p2).is_err());
}

#[test]
fn module_ids_compare_by_components() {
    let a = id("x");
    let b = id("x");
    assert!(a == b);
    let scoped = a.scoped(&"s".to_string());
    assert!(a != scoped);
    assert!(scoped == ModuleId { path: "x".to_string(), query: String::new(), scope: Some("s".to_string()) });
}

#[test]
fn source_map_name_folds_its_tag_and_payload() {
    assert_eq!(ResourceType::SourceMap("a".to_string()).to_string(), "sourceMapA");
}

#[test]
fn removing_one_pots_resources_keeps_the_rest() {
    let mut store = ResourceStore::new();
    store.insert(pot_resource("r1", "p1"));
    store.insert(pot_resource("r2", "p2"));
    store.remove_resources_of_pot(&"p1".to_string());
    assert_eq!(store.resources.len(), 1);
    assert_eq!(store.resources[0].name, "r2");
}

#[test]
fn inserting_under_a_taken_name_replaces() {
    let mut store = ResourceStore::new();
    store.insert(pot_resource("r1", "p1"));
    let mut newer = pot_resource("r1", "p1");
    newer.bytes = vec![9];
    store.insert(newer);
    assert_eq!(store.resources.len(), 1);
    assert_eq!(store.resources[0].bytes, vec![9]);
}

#[test]
fn comment_tables_round_trip() {
    let lead = vec![(3u32, vec![Comment { line: true, text: "a".to_string() }])];
    let meta = CommentsMetaData::from_maps(lead, vec![]);
    assert_eq!(meta.leading.len(), 1);
    assert_eq!(meta.leading[0].byte_pos, 3);
    let (l, t) = meta.into_maps();
    assert_eq!(l.len(), 1);
    assert_eq!(l[0].0, 3);
    assert_eq!(l[0].1[0].text, "a");
    assert!(t.is_empty());
}

#[test]
fn regeneration_recomputes_execution_order() {
    let mut g = ModuleGraph::new();
    let mut a = script("A");
    a.execution_order = 7;
    g.add_module(a);
    let mut b = script("B");
    b.execution_order = 7;
    g.add_module(b);
    g.add_edge(&id("A"), &id("B"), meta("./b"));
    g.add_entry(id("A"), "main".to_string());

    g.update_execution_order_for_modules();
    assert_eq!(g.module(&id("A")).unwrap().execution_order, 0);
    assert_eq!(g.module(&id("B")).unwrap().execution_order, 1);
}
