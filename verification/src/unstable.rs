//! Which items of the standard library belong to the public API of an unstable
//! feature: the attributes that mark them, and what of each item is kept.

use vstd::prelude::*;

use crate::strmap::{compare_text, TextOrder};
use crate::text::{chars_of, push_str, string_of, string_views};

verus! {

/// What follows the name of an argument inside an attribute's parentheses.
#[derive(Debug)]
pub enum MetaArg {
    /// Nothing: the argument is a bare name.
    Bare,
    /// `= "text"`, a string literal.
    Str(String),
    /// Something else: another value, or a parenthesized list.
    Other,
}

/// One argument inside an attribute's parentheses, such as `feature = "x"`.
pub struct MetaItem {
    /// The argument's name, where it is a single identifier.
    pub name: Option<String>,
    pub arg: MetaArg,
}

/// What follows the name of an argument, as text.
pub enum MetaArgView {
    Bare,
    Str(Seq<char>),
    Other,
}

/// What an argument holds, as text.
pub struct MetaItemView {
    pub name: Option<Seq<char>>,
    pub arg: MetaArgView,
}

/// An attribute, as far as the choice of items reads it.
pub struct Attr {
    /// The attribute's path, where it is a single identifier.
    pub name: Option<String>,
    /// The string of `#[name = "text"]`.
    pub str_value: Option<String>,
    /// The arguments of `#[name(...)]` in order, as far as they read as arguments
    /// one after the other.
    pub nested: Vec<MetaItem>,
    /// The arguments of `#[name(...)]` as a comma-separated list of metas; `None`
    /// where the attribute has no such list or it does not parse.
    pub metas: Option<Vec<MetaItem>>,
}

/// What an attribute holds, as text.
pub struct AttrView {
    pub name: Option<Seq<char>>,
    pub str_value: Option<Seq<char>>,
    pub nested: Seq<MetaItemView>,
    pub metas: Option<Seq<MetaItemView>>,
}

/// A text that may be absent, as characters.
pub open spec fn opt_text(o: Option<String>) -> Option<Seq<char>> {
    match o {
        Some(s) => Some(s@),
        None => None,
    }
}

/// The view of an argument.
pub open spec fn meta_view(m: MetaItem) -> MetaItemView {
    MetaItemView {
        name: opt_text(m.name),
        arg: match m.arg {
            MetaArg::Bare => MetaArgView::Bare,
            MetaArg::Str(s) => MetaArgView::Str(s@),
            MetaArg::Other => MetaArgView::Other,
        },
    }
}

/// The views of a list of arguments.
pub open spec fn meta_views(ms: Seq<MetaItem>) -> Seq<MetaItemView> {
    ms.map_values(|m: MetaItem| meta_view(m))
}

impl View for Attr {
    type V = AttrView;

    open spec fn view(&self) -> AttrView {
        AttrView {
            name: opt_text(self.name),
            str_value: opt_text(self.str_value),
            nested: meta_views(self.nested@),
            metas: match self.metas {
                Some(ms) => Some(meta_views(ms@)),
                None => None,
            },
        }
    }
}

/// The views of a list of attributes.
pub open spec fn attr_views(attrs: Seq<Attr>) -> Seq<AttrView> {
    attrs.map_values(|a: Attr| a@)
}

/// Whether `unstable(...)` arguments from position `i` on name `feature`: a
/// `feature = "..."` argument is compared; reading stops at the first argument
/// that is not a bare name, other than a string-valued `feature`.
pub open spec fn names_feature(args: Seq<MetaItemView>, feature: Seq<char>, i: int) -> bool
    decreases args.len() - i,
{
    if i < 0 || i >= args.len() {
        false
    } else if args[i].name == Some("feature"@) {
        match args[i].arg {
            MetaArgView::Str(v) => v == feature || names_feature(args, feature, i + 1),
            _ => false,
        }
    } else {
        match args[i].arg {
            MetaArgView::Bare => names_feature(args, feature, i + 1),
            _ => false,
        }
    }
}

/// The attribute is `#[unstable(feature = "...")]` for `feature`.
pub open spec fn attr_is_unstable(a: AttrView, feature: Seq<char>) -> bool {
    a.name == Some("unstable"@) && names_feature(a.nested, feature, 0)
}

/// The attribute's path is the identifier `s`.
pub open spec fn attr_is(a: AttrView, s: Seq<char>) -> bool {
    a.name == Some(s)
}

/// The first `path = "..."` argument among `metas` from position `i` on.
pub open spec fn first_path_arg(metas: Seq<MetaItemView>, i: int) -> Option<Seq<char>>
    decreases metas.len() - i,
{
    if i < 0 || i >= metas.len() {
        None
    } else {
        match metas[i].arg {
            MetaArgView::Str(v) => if metas[i].name == Some("path"@) {
                Some(v)
            } else {
                first_path_arg(metas, i + 1)
            },
            _ => first_path_arg(metas, i + 1),
        }
    }
}

/// The file that `#[path = "..."]`, or a `path = "..."` inside `#[cfg_attr(...)]`,
/// gives a module.
pub open spec fn attr_mod_path(a: AttrView) -> Option<Seq<char>> {
    if a.name == Some("path"@) && a.str_value is Some {
        a.str_value
    } else if a.name == Some("cfg_attr"@) {
        match a.metas {
            Some(ms) => first_path_arg(ms, 0),
            None => None,
        }
    } else {
        None
    }
}

/// Whether a path, given by its identifier where it is one, is the identifier `s`.
pub fn path_is_str(path: &Option<String>, s: &str) -> (res: bool)
    ensures
        res == (opt_text(*path) == Some(s@)),
{
    match path {
        Some(p) => compare_text(p.as_str(), s) == TextOrder::Equal,
        None => false,
    }
}

/// What the choice of items asks of an attribute.
pub trait AttributeExt {
    /// The attribute's view, which the contracts speak of.
    spec fn attr_view(&self) -> AttrView;

    /// Whether the attribute marks an item unstable under `feature`.
    fn is_unstable(&self, feature: &str) -> (res: bool)
        ensures
            res == attr_is_unstable(self.attr_view(), feature@);

    /// Whether the attribute's path is the identifier `attr`.
    fn is(&self, attr: &str) -> (res: bool)
        ensures
            res == attr_is(self.attr_view(), attr@);

    /// The file the attribute gives a module, where it gives one.
    fn mod_path(&self) -> (res: Option<String>)
        ensures
            opt_text(res) == attr_mod_path(self.attr_view());
}

/// Whether the arguments from position `i` on name `feature`.
fn args_name_feature(args: &Vec<MetaItem>, feature: &str) -> (res: bool)
    ensures
        res == names_feature(meta_views(args@), feature@, 0),
{
    let ghost av = meta_views(args@);
    let mut i: usize = args.len();
    let mut acc: bool = false;
    while i > 0
        invariant
            i <= args@.len(),
            av == meta_views(args@),
            acc == names_feature(av, feature@, i as int),
        decreases i,
    {
        i = i - 1;
        let m = &args[i];
        assert(av[i as int] == meta_view(*m));
        if path_is_str(&m.name, "feature") {
            acc = match &m.arg {
                MetaArg::Str(v) => compare_text(v.as_str(), feature) == TextOrder::Equal || acc,
                _ => false,
            };
        } else {
            acc = match &m.arg {
                MetaArg::Bare => acc,
                _ => false,
            };
        }
    }
    acc
}

/// The first `path = "..."` argument of `metas`.
fn path_arg(metas: &Vec<MetaItem>) -> (res: Option<String>)
    ensures
        opt_text(res) == first_path_arg(meta_views(metas@), 0),
{
    let ghost mv = meta_views(metas@);
    let mut i: usize = metas.len();
    let mut acc: Option<String> = None;
    while i > 0
        invariant
            i <= metas@.len(),
            mv == meta_views(metas@),
            opt_text(acc) == first_path_arg(mv, i as int),
        decreases i,
    {
        i = i - 1;
        let m = &metas[i];
        assert(mv[i as int] == meta_view(*m));
        match &m.arg {
            MetaArg::Str(v) => {
                if path_is_str(&m.name, "path") {
                    acc = Some(v.clone());
                }
            },
            _ => {},
        }
    }
    acc
}

impl AttributeExt for Attr {
    open spec fn attr_view(&self) -> AttrView {
        self@
    }

    fn is_unstable(&self, feature: &str) -> (res: bool) {
        path_is_str(&self.name, "unstable") && args_name_feature(&self.nested, feature)
    }

    fn is(&self, attr: &str) -> (res: bool) {
        path_is_str(&self.name, attr)
    }

    fn mod_path(&self) -> (res: Option<String>) {
        if path_is_str(&self.name, "path") {
            match &self.str_value {
                Some(v) => {
                    return Some(v.clone());
                },
                None => {},
            }
        }
        if path_is_str(&self.name, "cfg_attr") {
            return match &self.metas {
                Some(ms) => path_arg(ms),
                None => None,
            };
        }
        None
    }
}

/// The visibility of an item.
#[derive(PartialEq, Eq, Structural, Clone, Copy, Debug)]
pub enum Vis {
    /// `pub`.
    Public,
    /// `pub(crate)`, `pub(super)` and the like.
    Restricted,
    /// No visibility written: private.
    Inherited,
}

/// Some attribute of `attrs` marks an item unstable under `feature`.
pub open spec fn any_unstable(attrs: Seq<AttrView>, feature: Seq<char>) -> bool {
    exists|i: int| 0 <= i < attrs.len() && #[trigger] attr_is_unstable(attrs[i], feature)
}

/// The attribute survives stripping: `derive` and `fundamental` do.
pub open spec fn attr_kept(a: AttrView) -> bool {
    attr_is(a, "derive"@) || attr_is(a, "fundamental"@)
}

/// Some attribute that survives stripping marks an item unstable under `feature`.
pub open spec fn any_kept_unstable(attrs: Seq<AttrView>, feature: Seq<char>) -> bool {
    exists|i: int| 0 <= i < attrs.len() && attr_kept(attrs[i]) && #[trigger] attr_is_unstable(attrs[i], feature)
}

/// The positions of the first `n` attributes that survive stripping.
pub open spec fn kept_attrs(attrs: Seq<AttrView>, n: int) -> Seq<usize>
    decreases n,
{
    if n <= 0 {
        Seq::empty()
    } else if attr_kept(attrs[n - 1]) {
        kept_attrs(attrs, n - 1).push((n - 1) as usize)
    } else {
        kept_attrs(attrs, n - 1)
    }
}

/// An item with these attributes and this visibility (`None` where the item has
/// none to give) belongs to the feature: public or without visibility, and
/// either within an unstable item or marked unstable itself.
pub open spec fn unstable_under(name: Seq<char>, inherited: bool, attrs: Seq<AttrView>, vis: Option<Vis>) -> bool {
    match vis {
        Some(Vis::Public) | None => inherited || any_unstable(attrs, name),
        _ => false,
    }
}

/// The unstable feature whose API is listed, and whether the items visited lie
/// within an item that belongs to it.
pub struct Feature {
    pub name: String,
    pub inherited: bool,
}

/// Whether one attribute of `attrs` marks an item unstable under `feature`.
fn has_unstable(attrs: &Vec<Attr>, feature: &str) -> (res: bool)
    ensures
        res == any_unstable(attr_views(attrs@), feature@),
{
    let ghost av = attr_views(attrs@);
    let mut i: usize = 0;
    while i < attrs.len()
        invariant
            i <= attrs@.len(),
            av == attr_views(attrs@),
            forall|j: int| 0 <= j < i ==> !#[trigger] attr_is_unstable(av[j], feature@),
        decreases attrs@.len() - i,
    {
        assert(av[i as int] == attrs@[i as int]@);
        if attrs[i].is_unstable(feature) {
            return true;
        }
        i = i + 1;
    }
    false
}

/// Whether one attribute of `attrs` that survives stripping marks an item
/// unstable under `feature`.
fn has_kept_unstable(attrs: &Vec<Attr>, feature: &str) -> (res: bool)
    ensures
        res == any_kept_unstable(attr_views(attrs@), feature@),
{
    let ghost av = attr_views(attrs@);
    let mut i: usize = 0;
    while i < attrs.len()
        invariant
            i <= attrs@.len(),
            av == attr_views(attrs@),
            forall|j: int| 0 <= j < i ==> !(attr_kept(av[j]) && #[trigger] attr_is_unstable(av[j], feature@)),
        decreases attrs@.len() - i,
    {
        assert(av[i as int] == attrs@[i as int]@);
        if (attrs[i].is("derive") || attrs[i].is("fundamental")) && attrs[i].is_unstable(feature) {
            return true;
        }
        i = i + 1;
    }
    false
}

impl Feature {
    /// The same feature, with `inherit_feature` saying whether the items visited
    /// next lie within an unstable item.
    pub fn inherit(&self, inherit_feature: bool) -> (res: Feature)
        ensures
            res.name@ == self.name@,
            res.inherited == inherit_feature,
    {
        Feature { name: self.name.clone(), inherited: inherit_feature }
    }

    /// Whether an item with these attributes and visibility belongs to the feature.
    pub fn is_unstable(&self, attrs: &Vec<Attr>, vis: Option<Vis>) -> (res: bool)
        ensures
            res == unstable_under(self.name@, self.inherited, attr_views(attrs@), vis),
    {
        match vis {
            Some(Vis::Public) | None => self.inherited || has_unstable(attrs, self.name.as_str()),
            _ => false,
        }
    }

    /// The positions of the attributes that an item keeps in the listing.
    pub fn strip_attrs(&self, attrs: &Vec<Attr>) -> (res: Vec<usize>)
        ensures
            res@ == kept_attrs(attr_views(attrs@), attrs@.len() as int),
    {
        let ghost av = attr_views(attrs@);
        let mut res: Vec<usize> = Vec::new();
        let mut i: usize = 0;
        while i < attrs.len()
            invariant
                i <= attrs@.len(),
                av == attr_views(attrs@),
                res@ == kept_attrs(av, i as int),
            decreases attrs@.len() - i,
        {
            assert(av[i as int] == attrs@[i as int]@);
            if attrs[i].is("derive") || attrs[i].is("fundamental") {
                res.push(i);
            }
            i = i + 1;
        }
        res
    }

    /// Takes in the attributes of a source file: where they mark it unstable,
    /// everything in the file belongs to the feature.
    pub fn visit_file_attrs(&mut self, attrs: &Vec<Attr>)
        ensures
            final(self).name@ == old(self).name@,
            final(self).inherited == (old(self).inherited || unstable_under(
                old(self).name@,
                old(self).inherited,
                attr_views(attrs@),
                None,
            )),
    {
        if self.is_unstable(attrs, None) {
            self.inherited = true;
        }
    }
}

/// The kinds of items the listing looks at.
#[derive(PartialEq, Eq, Structural, Clone, Copy, Debug)]
pub enum ItemKind {
    Const,
    Static,
    Fn,
    /// `macro_rules!` and other macro invocations in item position.
    Macro,
    /// `macro` items.
    Macro2,
    TraitAlias,
    Use,
    Enum,
    Struct,
    Union,
    Type,
    Trait,
    /// `impl Type { .. }`.
    Impl,
    /// `impl Trait for Type { .. }`.
    TraitImpl,
}

/// The kinds of the parts of an item that are kept or dropped one by one.
#[derive(PartialEq, Eq, Structural, Clone, Copy, Debug)]
pub enum SubKind {
    Const,
    Macro,
    Fn,
    Type,
    Variant,
    Field,
}

/// A part of an item: an associated item, a variant or a field.
pub struct SubItem {
    pub kind: SubKind,
    /// Its visibility; only that of a field counts.
    pub vis: Vis,
    /// Its own attributes.
    pub attrs: Vec<Attr>,
    /// The attributes anywhere inside it, below its own.
    pub inner: Vec<Attr>,
}

/// An item of a module, as far as the listing reads it.
pub struct ItemInfo {
    pub kind: ItemKind,
    /// Its own attributes.
    pub attrs: Vec<Attr>,
    /// Its visibility, where its kind has one.
    pub vis: Vis,
    /// The attributes anywhere inside it, below its own and those of its parts.
    pub inner: Vec<Attr>,
    /// Its parts, in order.
    pub subs: Vec<SubItem>,
}

/// What a part holds, as text.
pub struct SubItemView {
    pub kind: SubKind,
    pub vis: Vis,
    pub attrs: Seq<AttrView>,
    pub inner: Seq<AttrView>,
}

/// What an item holds, as text.
pub struct ItemInfoView {
    pub kind: ItemKind,
    pub attrs: Seq<AttrView>,
    pub vis: Vis,
    pub inner: Seq<AttrView>,
    pub subs: Seq<SubItemView>,
}

/// The view of a part.
pub open spec fn sub_view(s: SubItem) -> SubItemView {
    SubItemView { kind: s.kind, vis: s.vis, attrs: attr_views(s.attrs@), inner: attr_views(s.inner@) }
}

impl View for ItemInfo {
    type V = ItemInfoView;

    open spec fn view(&self) -> ItemInfoView {
        ItemInfoView {
            kind: self.kind,
            attrs: attr_views(self.attrs@),
            vis: self.vis,
            inner: attr_views(self.inner@),
            subs: self.subs@.map_values(|x: SubItem| sub_view(x)),
        }
    }
}

/// What the listing keeps of an item: the positions of its attributes and parts.
pub struct Kept {
    pub attrs: Vec<usize>,
    pub subs: Vec<usize>,
}

/// An attribute for the feature where none can stand: inside an item that is
/// not listed, or inside a listed item below the level where items are chosen.
#[derive(PartialEq, Eq, Structural, Clone, Copy, Debug)]
pub enum StabilityError {
    UnexpectedUnstable,
}

/// The visibility that decides for an item of this kind: macros and impls have none.
pub open spec fn decisive_vis(kind: ItemKind, vis: Vis) -> Option<Vis> {
    match kind {
        ItemKind::Macro | ItemKind::Macro2 | ItemKind::Impl | ItemKind::TraitImpl => None,
        _ => Some(vis),
    }
}

/// Whether items of this kind are kept or dropped as a whole.
pub open spec fn is_simple(kind: ItemKind) -> bool {
    match kind {
        ItemKind::Enum | ItemKind::Struct | ItemKind::Union | ItemKind::Trait | ItemKind::Impl | ItemKind::TraitImpl => false,
        _ => true,
    }
}

/// The visibility that decides for a part: only fields have one.
pub open spec fn part_vis(s: SubItemView) -> Option<Vis> {
    if s.kind == SubKind::Field {
        Some(s.vis)
    } else {
        None
    }
}

/// A part within an item whose unstability is `inherited` belongs to the feature.
pub open spec fn part_unstable(name: Seq<char>, inherited: bool, s: SubItemView) -> bool {
    unstable_under(name, inherited, s.attrs, part_vis(s))
}

/// No attribute for the feature stands where it should not in a part: below
/// what is kept of a listed part, or anywhere in a part that is not listed.
pub open spec fn part_ok(name: Seq<char>, inherited: bool, s: SubItemView) -> bool {
    if part_unstable(name, inherited, s) {
        !any_kept_unstable(s.attrs, name) && !any_unstable(s.inner, name)
    } else {
        !any_unstable(s.attrs, name) && !any_unstable(s.inner, name)
    }
}

/// The positions of the parts among the first `n` that are listed.
pub open spec fn listed_parts(name: Seq<char>, inherited: bool, subs: Seq<SubItemView>, n: int) -> Seq<usize>
    decreases n,
{
    if n <= 0 {
        Seq::empty()
    } else if part_unstable(name, inherited, subs[n - 1]) {
        listed_parts(name, inherited, subs, n - 1).push((n - 1) as usize)
    } else {
        listed_parts(name, inherited, subs, n - 1)
    }
}

/// Every part is in order.
pub open spec fn parts_ok(name: Seq<char>, inherited: bool, subs: Seq<SubItemView>) -> bool {
    forall|i: int| 0 <= i < subs.len() ==> #[trigger] part_ok(name, inherited, subs[i])
}

/// What the listing does with an item: keeps part of it, drops it, or finds an
/// attribute for the feature where none can stand.
pub open spec fn item_decision(name: Seq<char>, inherited: bool, item: ItemInfoView) -> Result<Option<(Seq<usize>, Seq<usize>)>, StabilityError> {
    let unstable = unstable_under(name, inherited, item.attrs, decisive_vis(item.kind, item.vis));
    let kept = kept_attrs(item.attrs, item.attrs.len() as int);
    if is_simple(item.kind) {
        if unstable {
            if !any_kept_unstable(item.attrs, name) && !any_unstable(item.inner, name) {
                Ok(Some((kept, Seq::empty())))
            } else {
                Err(StabilityError::UnexpectedUnstable)
            }
        } else if item.kind == ItemKind::Use && item.vis != Vis::Public {
            Ok(None)
        } else if !any_unstable(item.attrs, name) && !any_unstable(item.inner, name) {
            Ok(None)
        } else {
            Err(StabilityError::UnexpectedUnstable)
        }
    } else if parts_ok(name, unstable, item.subs) {
        let parts = listed_parts(name, unstable, item.subs, item.subs.len() as int);
        if unstable || parts.len() > 0 {
            Ok(Some((kept, parts)))
        } else {
            Ok(None)
        }
    } else {
        Err(StabilityError::UnexpectedUnstable)
    }
}

impl Feature {
    /// What the listing does with an item of the module being visited: `Some`
    /// with what it keeps of an item of the feature's API, `None` for an item it
    /// drops, and an error where an attribute for the feature stands where none can.
    pub fn decide_item(&self, item: &ItemInfo) -> (res: Result<Option<Kept>, StabilityError>)
        ensures
            match (res, item_decision(self.name@, self.inherited, item@)) {
                (Ok(Some(k)), Ok(Some((a, p)))) => k.attrs@ == a && k.subs@ == p,
                (Ok(None), Ok(None)) => true,
                (Err(e), Err(f)) => e == f,
                _ => false,
            },
    {
        let ghost iv = item@;
        let ghost name = self.name@;
        let vis = match item.kind {
            ItemKind::Macro | ItemKind::Macro2 | ItemKind::Impl | ItemKind::TraitImpl => None,
            _ => Some(item.vis),
        };
        let unstable = self.is_unstable(&item.attrs, vis);
        assert(vis == decisive_vis(iv.kind, iv.vis));
        let simple = match item.kind {
            ItemKind::Enum | ItemKind::Struct | ItemKind::Union | ItemKind::Trait | ItemKind::Impl
            | ItemKind::TraitImpl => false,
            _ => true,
        };
        let feature = self.name.as_str();
        if simple {
            if unstable {
                if !has_kept_unstable(&item.attrs, feature) && !has_unstable(&item.inner, feature) {
                    let attrs = self.strip_attrs(&item.attrs);
                    let k = Kept { attrs, subs: Vec::new() };
                    assert(k.subs@ =~= Seq::<usize>::empty());
                    return Ok(Some(k));
                }
                return Err(StabilityError::UnexpectedUnstable);
            }
            if item.kind == ItemKind::Use && item.vis != Vis::Public {
                return Ok(None);
            }
            if !has_unstable(&item.attrs, feature) && !has_unstable(&item.inner, feature) {
                return Ok(None);
            }
            return Err(StabilityError::UnexpectedUnstable);
        }
        let ghost sv = iv.subs;
        let mut visitor = FilteredUnstableItemVisitor {
            feature: Feature { name: self.name.clone(), inherited: unstable },
            items: Vec::new(),
        };
        let mut i: usize = 0;
        while i < item.subs.len()
            invariant
                i <= item.subs@.len(),
                sv == item.subs@.map_values(|x: SubItem| sub_view(x)),
                iv == item@,
                sv == iv.subs,
                !is_simple(iv.kind),
                unstable == unstable_under(name, self.inherited, iv.attrs, decisive_vis(iv.kind, iv.vis)),
                name == self.name@,
                feature@ == name,
                visitor.feature.name@ == name,
                visitor.feature.inherited == unstable,
                visitor.items@ == listed_parts(name, unstable, sv, i as int),
                forall|j: int| 0 <= j < i ==> #[trigger] part_ok(name, unstable, sv[j]),
            decreases item.subs@.len() - i,
        {
            let sub = &item.subs[i];
            assert(sv[i as int] == sub_view(*sub));
            let sub_vis = if sub.kind == SubKind::Field { Some(sub.vis) } else { None };
            let part_unstable = visitor.feature.is_unstable(&sub.attrs, sub_vis);
            let ok = if part_unstable {
                !has_kept_unstable(&sub.attrs, feature) && !has_unstable(&sub.inner, feature)
            } else {
                !has_unstable(&sub.attrs, feature) && !has_unstable(&sub.inner, feature)
            };
            if !ok {
                assert(!part_ok(name, unstable, sv[i as int]));
                assert(!parts_ok(name, unstable, sv));
                return Err(StabilityError::UnexpectedUnstable);
            }
            if part_unstable {
                visitor.visit_unstable_item(i);
            }
            i = i + 1;
        }
        if visitor.is_unstable() {
            let attrs = self.strip_attrs(&item.attrs);
            Ok(Some(Kept { attrs, subs: visitor.items }))
        } else {
            Ok(None)
        }
    }
}

/// The parts of an item listed so far, and the feature as it stands within the item.
pub struct FilteredUnstableItemVisitor {
    pub feature: Feature,
    /// The positions of the listed parts, in order.
    pub items: Vec<usize>,
}

impl FilteredUnstableItemVisitor {
    /// Whether the item is listed: it is unstable itself, or lists a part.
    pub fn is_unstable(&self) -> (res: bool)
        ensures
            res == (self.feature.inherited || self.items@.len() > 0),
    {
        self.feature.inherited || self.items.len() > 0
    }

    /// Lists the part at position `item`.
    pub fn visit_unstable_item(&mut self, item: usize)
        ensures
            final(self).items@ == old(self).items@.push(item),
            final(self).feature == old(self).feature,
    {
        self.items.push(item);
    }
}

/// What the listing keeps of a module declared in the module being visited.
pub struct ModuleChoice {
    /// The positions of the attributes the module keeps.
    pub attrs: Vec<usize>,
    /// Whether everything in it belongs to the feature.
    pub inherit_feature: bool,
    /// The file its attributes give it, where they give one.
    pub path: Option<String>,
}

/// The file that the first attribute of `attrs` that gives one gives a module.
pub open spec fn first_mod_path(attrs: Seq<AttrView>, i: int) -> Option<Seq<char>>
    decreases attrs.len() - i,
{
    if i < 0 || i >= attrs.len() {
        None
    } else {
        match attr_mod_path(attrs[i]) {
            Some(p) => Some(p),
            None => first_mod_path(attrs, i + 1),
        }
    }
}

impl Feature {
    /// What the listing keeps of a module with these attributes and visibility.
    pub fn module_choice(&self, attrs: &Vec<Attr>, vis: Vis) -> (res: ModuleChoice)
        ensures
            res.attrs@ == kept_attrs(attr_views(attrs@), attrs@.len() as int),
            res.inherit_feature == unstable_under(self.name@, self.inherited, attr_views(attrs@), Some(vis)),
            opt_text(res.path) == first_mod_path(attr_views(attrs@), 0),
    {
        let ghost av = attr_views(attrs@);
        let mut i: usize = attrs.len();
        let mut path: Option<String> = None;
        while i > 0
            invariant
                i <= attrs@.len(),
                av == attr_views(attrs@),
                opt_text(path) == first_mod_path(av, i as int),
            decreases i,
        {
            i = i - 1;
            assert(av[i as int] == attrs@[i as int]@);
            match attrs[i].mod_path() {
                Some(p) => {
                    path = Some(p);
                },
                None => {},
            }
        }
        ModuleChoice {
            attrs: self.strip_attrs(attrs),
            inherit_feature: self.is_unstable(attrs, Some(vis)),
            path,
        }
    }
}

/// Whether a module is kept: it lists items of its own, or keeps a child module
/// (only modules with unstable items are kept as children).
pub fn module_is_unstable(items: usize, children_kept: &Vec<bool>) -> (res: bool)
    ensures
        res == (items > 0 || children_kept@.contains(true)),
{
    if items > 0 {
        return true;
    }
    let mut i: usize = 0;
    while i < children_kept.len()
        invariant
            i <= children_kept@.len(),
            forall|j: int| 0 <= j < i ==> !#[trigger] children_kept@[j],
        decreases children_kept@.len() - i,
    {
        if children_kept[i] {
            assert(children_kept@[i as int] == true);
            return true;
        }
        i = i + 1;
    }
    proof {
        if children_kept@.contains(true) {
            let j = choose|j: int| 0 <= j < children_kept@.len() && children_kept@[j] == true;
            assert(!children_kept@[j]);
        }
    }
    false
}

proof fn lemma_listed_parts(name: Seq<char>, inherited: bool, subs: Seq<SubItemView>, n: int)
    requires
        0 <= n <= subs.len(),
        subs.len() <= usize::MAX,
    ensures
        forall|k: int| 0 <= k < listed_parts(name, inherited, subs, n).len() ==> {
            let p = #[trigger] listed_parts(name, inherited, subs, n)[k] as int;
            &&& 0 <= p < n
            &&& part_unstable(name, inherited, subs[p])
        },
    decreases n,
{
    if n > 0 {
        lemma_listed_parts(name, inherited, subs, n - 1);
        let prev = listed_parts(name, inherited, subs, n - 1);
        let cur = listed_parts(name, inherited, subs, n);
        assert forall|k: int| 0 <= k < cur.len() implies {
            let p = #[trigger] cur[k] as int;
            &&& 0 <= p < n
            &&& part_unstable(name, inherited, subs[p])
        } by {
            if k < prev.len() {
                assert(cur[k] == prev[k]);
            } else {
                assert(cur[k] == (n - 1) as usize);
            }
        }
    }
}

proof fn lemma_kept_attrs(attrs: Seq<AttrView>, n: int)
    requires
        0 <= n <= attrs.len(),
        attrs.len() <= usize::MAX,
    ensures
        forall|k: int| 0 <= k < kept_attrs(attrs, n).len() ==> {
            let p = #[trigger] kept_attrs(attrs, n)[k] as int;
            0 <= p < n && attr_kept(attrs[p])
        },
    decreases n,
{
    if n > 0 {
        lemma_kept_attrs(attrs, n - 1);
        let prev = kept_attrs(attrs, n - 1);
        let cur = kept_attrs(attrs, n);
        assert forall|k: int| 0 <= k < cur.len() implies {
            let p = #[trigger] cur[k] as int;
            0 <= p < n && attr_kept(attrs[p])
        } by {
            if k < prev.len() {
                assert(cur[k] == prev[k]);
            } else {
                assert(cur[k] == (n - 1) as usize);
            }
        }
    }
}

/// What the listing keeps of an item belongs to the feature: an item is listed
/// only where it is unstable itself or has a listed part, every listed part is
/// unstable, and every kept attribute is a `derive` or
/// `fundamental` one. A private item kept or dropped as a whole is never listed.
pub proof fn law_listing_belongs(name: Seq<char>, inherited: bool, item: ItemInfoView)
    requires
        item.attrs.len() <= usize::MAX,
        item.subs.len() <= usize::MAX,
    ensures
        item_decision(name, inherited, item) matches Ok(Some((attrs, parts))) ==> {
            let unstable = unstable_under(name, inherited, item.attrs, decisive_vis(item.kind, item.vis));
            &&& unstable || parts.len() > 0
            &&& forall|k: int| 0 <= k < parts.len() ==> {
                let p = #[trigger] parts[k] as int;
                &&& 0 <= p < item.subs.len()
                &&& part_unstable(name, unstable, item.subs[p])
            }
            &&& forall|k: int| 0 <= k < attrs.len() ==> {
                let p = #[trigger] attrs[k] as int;
                0 <= p < item.attrs.len() && attr_kept(item.attrs[p])
            }
        },
        is_simple(item.kind) && item.vis != Vis::Public && decisive_vis(item.kind, item.vis) is Some
            ==> !(item_decision(name, inherited, item) matches Ok(Some(_))),
{
    let unstable = unstable_under(name, inherited, item.attrs, decisive_vis(item.kind, item.vis));
    lemma_listed_parts(name, unstable, item.subs, item.subs.len() as int);
    lemma_kept_attrs(item.attrs, item.attrs.len() as int);
}

/// `part` joined to the directory `root` as `PathBuf::push` joins them: an absolute
/// `part` replaces `root`, and a `/` is put between them unless `root` is empty or
/// already ends with one.
pub open spec fn joined(root: Seq<char>, part: Seq<char>) -> Seq<char> {
    if part.len() > 0 && part[0] == '/' {
        part
    } else if root.len() == 0 || root.last() == '/' {
        root + part
    } else {
        root + seq!['/'] + part
    }
}

/// The files that may hold the module `name` declared in a file whose modules live
/// in `root`, in the order they are tried: the path its `#[path]` attribute gives,
/// or else `name.rs` and then `name/mod.rs`.
pub open spec fn module_candidates(root: Seq<char>, name: Seq<char>, path_attr: Option<Seq<char>>) -> Seq<Seq<char>> {
    match path_attr {
        Some(p) => seq![joined(root, p)],
        None => seq![joined(root, name + ".rs"@), joined(joined(root, name), "mod.rs"@)],
    }
}

/// `part` joined to `root`.
fn join_path(root: &str, part: &str) -> (res: String)
    ensures
        res@ == joined(root@, part@),
{
    let r = chars_of(root);
    let p = chars_of(part);
    let mut out: Vec<char> = Vec::new();
    if p.len() > 0 && p[0] == '/' {
        push_str(&mut out, part);
    } else if r.len() == 0 || r[r.len() - 1] == '/' {
        push_str(&mut out, root);
        push_str(&mut out, part);
    } else {
        push_str(&mut out, root);
        out.push('/');
        push_str(&mut out, part);
    }
    string_of(&out)
}

/// The files to try, in order, for the module `name` declared in a file whose
/// modules live in `root` (a module name holds no dot, so `name.rs` is what
/// `set_extension` makes of it).
pub fn module_file_candidates(root: &str, name: &str, path_attr: Option<&str>) -> (res: Vec<String>)
    ensures
        string_views(res@) == module_candidates(root@, name@, match path_attr {
            Some(p) => Some(p@),
            None => None,
        }),
{
    let mut res: Vec<String> = Vec::new();
    match path_attr {
        Some(p) => {
            res.push(join_path(root, p));
        },
        None => {
            let mut file: Vec<char> = chars_of(name);
            push_str(&mut file, ".rs");
            let file_name = string_of(&file);
            res.push(join_path(root, file_name.as_str()));
            let dir = join_path(root, name);
            res.push(join_path(dir.as_str(), "mod.rs"));
        },
    }
    proof {
        assert(string_views(res@) =~= module_candidates(root@, name@, match path_attr {
            Some(p) => Some(p@),
            None => None,
        }));
    }
    res
}

/// A field that is not `pub` is never listed, whatever the unstability of the item
/// or of the field: every listed field is public.
pub proof fn law_private_fields_unlisted(name: Seq<char>, inherited: bool, item: ItemInfoView)
    requires
        item.subs.len() <= usize::MAX,
    ensures
        item_decision(name, inherited, item) matches Ok(Some((_, parts))) ==>
            forall|k: int| 0 <= k < parts.len() && #[trigger] item.subs[parts[k] as int].kind == SubKind::Field
                ==> item.subs[parts[k] as int].vis == Vis::Public,
{
    let unstable = unstable_under(name, inherited, item.attrs, decisive_vis(item.kind, item.vis));
    lemma_listed_parts(name, unstable, item.subs, item.subs.len() as int);
    if let Ok(Some((_, parts))) = item_decision(name, inherited, item) {
        assert forall|k: int| 0 <= k < parts.len() && #[trigger] item.subs[parts[k] as int].kind == SubKind::Field
            implies item.subs[parts[k] as int].vis == Vis::Public by {
            let p = parts[k] as int;
            if is_simple(item.kind) {
                assert(parts.len() == 0);
            } else {
                assert(part_unstable(name, unstable, item.subs[p]));
                assert(part_vis(item.subs[p]) == Some(item.subs[p].vis));
            }
        }
    }
}

/// The stem of a path's file name, as `Path::file_stem` gives it.
pub uninterp spec fn path_file_stem(p: Seq<char>) -> Option<Seq<char>>;

/// A path with its last component taken off, as `PathBuf::pop` leaves it.
pub uninterp spec fn path_popped(p: Seq<char>) -> Seq<char>;

/// A path with the extension of its file name taken off, as
/// `PathBuf::set_extension("")` leaves it.
pub uninterp spec fn path_without_extension(p: Seq<char>) -> Seq<char>;

/// `std::path::Path::file_stem`, as text; what it is is left to the name
/// `path_file_stem`.
#[verifier::external_body]
fn file_stem_of(p: &str) -> (res: Option<String>)
    ensures
        match res {
            Some(s) => path_file_stem(p@) == Some(s@),
            None => path_file_stem(p@) is None,
        },
{
    std::path::Path::new(p).file_stem().map(|s| s.to_string_lossy().into_owned())
}

/// `std::path::PathBuf::pop`, as text; what it leaves is left to the name
/// `path_popped`.
#[verifier::external_body]
fn popped(p: &str) -> (res: String)
    ensures
        res@ == path_popped(p@),
{
    let mut b = std::path::PathBuf::from(p);
    b.pop();
    b.to_string_lossy().into_owned()
}

/// `std::path::PathBuf::set_extension` with no extension, as text; what it leaves
/// is left to the name `path_without_extension`.
#[verifier::external_body]
fn without_extension(p: &str) -> (res: String)
    ensures
        res@ == path_without_extension(p@),
{
    let mut b = std::path::PathBuf::from(p);
    b.set_extension("");
    b.to_string_lossy().into_owned()
}

/// Where the modules declared in a file live: beside `mod.rs` and `lib.rs`, in
/// their directory; for `x.rs`, in the directory `x`.
pub open spec fn module_root_of(file: Seq<char>) -> Seq<char> {
    if path_file_stem(file) == Some("mod"@) || path_file_stem(file) == Some("lib"@) {
        path_popped(file)
    } else {
        path_without_extension(file)
    }
}

/// The directory in which the modules declared in `file` live.
pub fn module_root(file: &str) -> (res: String)
    ensures
        res@ == module_root_of(file@),
{
    let is_dir_module = match file_stem_of(file) {
        Some(stem) => compare_text(stem.as_str(), "mod") == TextOrder::Equal
            || compare_text(stem.as_str(), "lib") == TextOrder::Equal,
        None => false,
    };
    if is_dir_module {
        popped(file)
    } else {
        without_extension(file)
    }
}

} // verus!
