use libs_tools::unstable::{
    module_file_candidates, module_is_unstable, module_root, path_is_str, Attr, AttributeExt, Feature, ItemInfo, ItemKind, Kept,
    MetaArg, MetaItem, StabilityError, SubItem, SubKind, Vis,
};

fn meta(name: &str, arg: MetaArg) -> MetaItem {
    MetaItem { name: Some(name.to_string()), arg }
}

fn unstable(feature: &str) -> Attr {
    let args = vec![
        meta("feature", MetaArg::Str(feature.to_string())),
        meta("issue", MetaArg::Str("1".to_string())),
    ];
    Attr {
        name: Some("unstable".to_string()),
        str_value: None,
        nested: args,
        metas: Some(vec![
            meta("feature", MetaArg::Str(feature.to_string())),
            meta("issue", MetaArg::Str("1".to_string())),
        ]),
    }
}

fn plain(name: &str) -> Attr {
    Attr { name: Some(name.to_string()), str_value: None, nested: vec![], metas: None }
}

fn feature(name: &str) -> Feature {
    Feature { name: name.to_string(), inherited: false }
}

fn item(kind: ItemKind, vis: Vis, attrs: Vec<Attr>) -> ItemInfo {
    ItemInfo { kind, attrs, vis, inner: vec![], subs: vec![] }
}

fn sub(kind: SubKind, attrs: Vec<Attr>) -> SubItem {
    SubItem { kind, vis: Vis::Inherited, attrs, inner: vec![] }
}

fn kept(res: Result<Option<Kept>, StabilityError>) -> Option<(Vec<usize>, Vec<usize>)> {
    res.unwrap().map(|k| (k.attrs, k.subs))
}

#[test]
fn attributes_name_their_feature() {
    let a = unstable("foo");
    assert!(a.is_unstable("foo"));
    assert!(!a.is_unstable("bar"));
    assert!(a.is("unstable"));
    assert!(!a.is("stable"));
    assert!(!plain("doc").is_unstable("foo"));
}

#[test]
fn feature_after_a_valued_argument_is_not_read() {
    let a = Attr {
        name: Some("unstable".to_string()),
        str_value: None,
        nested: vec![
            meta("issue", MetaArg::Str("1".to_string())),
            meta("feature", MetaArg::Str("foo".to_string())),
        ],
        metas: None,
    };
    assert!(!a.is_unstable("foo"));
    let b = Attr {
        name: Some("unstable".to_string()),
        str_value: None,
        nested: vec![meta("soft", MetaArg::Bare), meta("feature", MetaArg::Str("foo".to_string()))],
        metas: None,
    };
    assert!(b.is_unstable("foo"));
}

#[test]
fn module_paths() {
    let p = Attr { name: Some("path".to_string()), str_value: Some("x/y.rs".to_string()), nested: vec![], metas: None };
    assert_eq!(p.mod_path(), Some("x/y.rs".to_string()));
    let c = Attr {
        name: Some("cfg_attr".to_string()),
        str_value: None,
        nested: vec![],
        metas: Some(vec![meta("unix", MetaArg::Bare), meta("path", MetaArg::Str("unix.rs".to_string()))]),
    };
    assert_eq!(c.mod_path(), Some("unix.rs".to_string()));
    let unparsed = Attr { name: Some("cfg_attr".to_string()), str_value: None, nested: vec![], metas: None };
    assert_eq!(unparsed.mod_path(), None);
    assert_eq!(plain("path").mod_path(), None);
    assert_eq!(unstable("foo").mod_path(), None);
}

#[test]
fn paths_compare_as_identifiers() {
    assert!(path_is_str(&Some("derive".to_string()), "derive"));
    assert!(!path_is_str(&Some("derive".to_string()), "der"));
    assert!(!path_is_str(&None, "derive"));
}

#[test]
fn visibility_decides() {
    let f = feature("foo");
    let attrs = vec![unstable("foo")];
    assert!(f.is_unstable(&attrs, Some(Vis::Public)));
    assert!(f.is_unstable(&attrs, None));
    assert!(!f.is_unstable(&attrs, Some(Vis::Restricted)));
    assert!(!f.is_unstable(&vec![], Some(Vis::Public)));
    let inherited = f.inherit(true);
    assert_eq!(inherited.name, "foo");
    assert!(inherited.is_unstable(&vec![], Some(Vis::Public)));
    assert!(!inherited.is_unstable(&vec![], Some(Vis::Inherited)));
}

#[test]
fn stripping_keeps_derive_and_fundamental() {
    let f = feature("foo");
    let attrs = vec![plain("doc"), plain("derive"), unstable("foo"), plain("fundamental"), plain("inline")];
    assert_eq!(f.strip_attrs(&attrs), vec![1, 3]);
}

#[test]
fn an_unstable_file_makes_everything_unstable() {
    let mut f = feature("foo");
    f.visit_file_attrs(&vec![plain("doc")]);
    assert!(!f.inherited);
    f.visit_file_attrs(&vec![unstable("foo")]);
    assert!(f.inherited);
}

#[test]
fn unstable_functions_are_listed() {
    let f = feature("foo");
    let it = item(ItemKind::Fn, Vis::Public, vec![plain("doc"), unstable("foo"), plain("derive")]);
    assert_eq!(kept(f.decide_item(&it)), Some((vec![2], vec![])));
    let stable = item(ItemKind::Fn, Vis::Public, vec![plain("doc")]);
    assert_eq!(kept(f.decide_item(&stable)), None);
    let other = item(ItemKind::Const, Vis::Public, vec![unstable("bar")]);
    assert_eq!(kept(f.decide_item(&other)), None);
}

#[test]
fn a_private_item_marked_unstable_is_an_error() {
    let f = feature("foo");
    let it = item(ItemKind::Fn, Vis::Inherited, vec![unstable("foo")]);
    assert_eq!(f.decide_item(&it).err(), Some(StabilityError::UnexpectedUnstable));
}

#[test]
fn private_uses_are_not_checked() {
    let f = feature("foo");
    let mut it = item(ItemKind::Use, Vis::Inherited, vec![]);
    it.inner = vec![unstable("foo")];
    assert_eq!(kept(f.decide_item(&it)), None);
    let mut public = item(ItemKind::Use, Vis::Public, vec![]);
    public.inner = vec![unstable("foo")];
    assert_eq!(f.decide_item(&public).err(), Some(StabilityError::UnexpectedUnstable));
}

#[test]
fn macros_have_no_visibility() {
    let f = feature("foo");
    let it = item(ItemKind::Macro, Vis::Inherited, vec![unstable("foo")]);
    assert_eq!(kept(f.decide_item(&it)), Some((vec![], vec![])));
}

#[test]
fn an_enum_keeps_its_unstable_variants() {
    let f = feature("foo");
    let mut it = item(ItemKind::Enum, Vis::Public, vec![plain("derive")]);
    it.subs = vec![sub(SubKind::Variant, vec![]), sub(SubKind::Variant, vec![unstable("foo")]), sub(SubKind::Variant, vec![])];
    assert_eq!(kept(f.decide_item(&it)), Some((vec![0], vec![1])));
    it.subs = vec![sub(SubKind::Variant, vec![])];
    assert_eq!(kept(f.decide_item(&it)), None);
}

#[test]
fn an_unstable_trait_keeps_all_its_items() {
    let f = feature("foo");
    let mut it = item(ItemKind::Trait, Vis::Public, vec![unstable("foo")]);
    it.subs = vec![sub(SubKind::Fn, vec![]), sub(SubKind::Type, vec![])];
    assert_eq!(kept(f.decide_item(&it)), Some((vec![], vec![0, 1])));
}

#[test]
fn trait_impls_list_every_unstable_part() {
    let f = feature("foo");
    let mut it = item(ItemKind::TraitImpl, Vis::Inherited, vec![]);
    it.subs = vec![
        sub(SubKind::Fn, vec![unstable("foo")]),
        sub(SubKind::Type, vec![unstable("foo")]),
        sub(SubKind::Const, vec![]),
    ];
    assert_eq!(kept(f.decide_item(&it)), Some((vec![], vec![0, 1])));
    let mut whole = item(ItemKind::TraitImpl, Vis::Inherited, vec![unstable("foo")]);
    whole.subs = vec![sub(SubKind::Fn, vec![])];
    assert_eq!(kept(f.decide_item(&whole)), Some((vec![], vec![0])));
    let mut inherent = item(ItemKind::Impl, Vis::Inherited, vec![]);
    inherent.subs = vec![sub(SubKind::Fn, vec![unstable("foo")]), sub(SubKind::Const, vec![])];
    assert_eq!(kept(f.decide_item(&inherent)), Some((vec![], vec![0])));
}

#[test]
fn struct_fields_need_to_be_public() {
    let f = feature("foo");
    let mut it = item(ItemKind::Struct, Vis::Public, vec![]);
    let mut private = sub(SubKind::Field, vec![]);
    private.vis = Vis::Inherited;
    let mut public = sub(SubKind::Field, vec![unstable("foo")]);
    public.vis = Vis::Public;
    it.subs = vec![private, public];
    assert_eq!(kept(f.decide_item(&it)), Some((vec![], vec![1])));
}

#[test]
fn a_part_hiding_an_attribute_is_an_error() {
    let f = feature("foo");
    let mut it = item(ItemKind::Enum, Vis::Public, vec![]);
    let mut v = sub(SubKind::Variant, vec![]);
    v.inner = vec![unstable("foo")];
    it.subs = vec![v];
    assert_eq!(f.decide_item(&it).err(), Some(StabilityError::UnexpectedUnstable));
}

#[test]
fn modules_inherit_and_find_their_files() {
    let f = feature("foo");
    let attrs = vec![
        plain("doc"),
        Attr { name: Some("path".to_string()), str_value: Some("sys/unix.rs".to_string()), nested: vec![], metas: None },
        unstable("foo"),
    ];
    let m = f.module_choice(&attrs, Vis::Public);
    assert!(m.inherit_feature);
    assert_eq!(m.path, Some("sys/unix.rs".to_string()));
    assert_eq!(m.attrs, Vec::<usize>::new());
    let private = f.module_choice(&attrs, Vis::Restricted);
    assert!(!private.inherit_feature);
}

#[test]
fn a_module_is_kept_with_items_or_kept_children() {
    assert!(module_is_unstable(1, &vec![]));
    assert!(module_is_unstable(0, &vec![false, true]));
    assert!(!module_is_unstable(0, &vec![false, false]));
    assert!(!module_is_unstable(0, &vec![]));
}

#[test]
fn module_files_are_tried_alongside_then_nested() {
    assert_eq!(
        module_file_candidates("library/core/src", "lazy", None),
        vec!["library/core/src/lazy.rs".to_string(), "library/core/src/lazy/mod.rs".to_string()]
    );
    assert_eq!(module_file_candidates("src/", "io", None), vec!["src/io.rs".to_string(), "src/io/mod.rs".to_string()]);
    assert_eq!(module_file_candidates("", "io", None), vec!["io.rs".to_string(), "io/mod.rs".to_string()]);
}

#[test]
fn a_path_attribute_gives_the_one_module_file() {
    assert_eq!(
        module_file_candidates("library/std/src/sys", "unix", Some("unix/mod.rs")),
        vec!["library/std/src/sys/unix/mod.rs".to_string()]
    );
    assert_eq!(module_file_candidates("a", "b", Some("/abs/x.rs")), vec!["/abs/x.rs".to_string()]);
    for (root, part) in [("library/std/src/sys", "unix/mod.rs"), ("src/", "x.rs"), ("", "y.rs"), ("a", "/abs/x.rs")] {
        let expected = std::path::Path::new(root).join(part).to_string_lossy().into_owned();
        assert_eq!(module_file_candidates(root, "m", Some(part)), vec![expected]);
    }
}

#[test]
fn modules_live_beside_mod_and_lib_files() {
    assert_eq!(module_root("library/core/src/lib.rs"), "library/core/src");
    assert_eq!(module_root("library/core/src/lazy/mod.rs"), "library/core/src/lazy");
    assert_eq!(module_root("library/core/src/lazy.rs"), "library/core/src/lazy");
    assert_eq!(module_root("main.rs"), "main");
    assert_eq!(module_root("lib.rs"), "");
}
