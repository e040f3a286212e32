//! Paths as text and as branches of names.
//!
//! A path is split into its components as the standard library splits it.
//! The text of a branch puts a `/` between its names. The extension of a
//! name is what follows its last dot.

use vstd::prelude::*;
use vstd::string::*;

verus! {

/// One component of a path, by the kinds that `std::path::Component` tells
/// apart. Only a `Normal` component carries text.
#[derive(Clone, Debug, PartialEq, Eq)]
pub enum PathComponent {
    Prefix,
    RootDir,
    CurDir,
    ParentDir,
    Normal(String),
}

/// Mathematical model of a path component.
pub ghost enum ComponentView {
    Prefix,
    RootDir,
    CurDir,
    ParentDir,
    Normal(Seq<char>),
}

impl DeepView for PathComponent {
    type V = ComponentView;

    open spec fn deep_view(&self) -> ComponentView {
        match self {
            PathComponent::Prefix => ComponentView::Prefix,
            PathComponent::RootDir => ComponentView::RootDir,
            PathComponent::CurDir => ComponentView::CurDir,
            PathComponent::ParentDir => ComponentView::ParentDir,
            PathComponent::Normal(name) => ComponentView::Normal(name@),
        }
    }
}

/// The components into which the path syntax of the platform the library
/// is built for splits the text `path`.
pub uninterp spec fn path_components(path: Seq<char>) -> Seq<ComponentView>;

/// The names of the `Normal` components among `parts`, in their order.
pub open spec fn normal_names(parts: Seq<ComponentView>) -> Seq<Seq<char>>
    decreases parts.len(),
{
    if parts.len() == 0 {
        Seq::empty()
    } else {
        let front = normal_names(parts.drop_last());
        match parts.last() {
            ComponentView::Normal(name) => front.push(name),
            _ => front,
        }
    }
}

/// The branch of tree nodes that the text `path` stands for.
pub open spec fn path_names(path: Seq<char>) -> Seq<Seq<char>> {
    normal_names(path_components(path))
}

/// Splits `path` with `std::path::Path::components` and hands out each
/// component by its kind, a `Normal` one with its text. The result is taken
/// to be a function of the text alone, which `path_components` names.
#[verifier::external_body]
pub(crate) fn split_path(path: &str) -> (parts: Vec<PathComponent>)
    ensures
        parts.deep_view() == path_components(path@),
{
    let mut parts = Vec::new();
    for part in std::path::Path::new(path).components() {
        parts.push(
            match part {
                std::path::Component::Prefix(_) => PathComponent::Prefix,
                std::path::Component::RootDir => PathComponent::RootDir,
                std::path::Component::CurDir => PathComponent::CurDir,
                std::path::Component::ParentDir => PathComponent::ParentDir,
                std::path::Component::Normal(name) => PathComponent::Normal(
                    name.to_string_lossy().into_owned(),
                ),
            },
        );
    }
    parts
}

/// Keeps the names of the `Normal` components of `parts`; every other
/// component is skipped.
pub fn names_of_components(parts: &Vec<PathComponent>) -> (names: Vec<String>)
    ensures
        names.deep_view() == normal_names(parts.deep_view()),
{
    let mut names: Vec<String> = Vec::new();
    let mut i: usize = 0;
    while i < parts.len()
        invariant
            i <= parts.len(),
            names.deep_view() == normal_names(parts.deep_view().take(i as int)),
        decreases parts.len() - i,
    {
        let ghost upto = parts.deep_view().take(i as int + 1);
        assert(upto.drop_last() =~= parts.deep_view().take(i as int));
        match &parts[i] {
            PathComponent::Normal(name) => {
                names.push(name.clone());
            },
            _ => {},
        }
        i += 1;
    }
    assert(parts.deep_view().take(i as int) =~= parts.deep_view());
    names
}

/// A copy of `names`.
pub fn clone_names(names: &Vec<String>) -> (copy: Vec<String>)
    ensures
        copy.deep_view() == names.deep_view(),
{
    let mut copy: Vec<String> = Vec::new();
    let mut i: usize = 0;
    while i < names.len()
        invariant
            i <= names.len(),
            copy.len() == i,
            forall|j: int| 0 <= j < i ==> copy[j]@ == names[j]@,
        decreases names.len() - i,
    {
        copy.push(names[i].clone());
        i += 1;
    }
    copy
}


/// The characters of `text`.
pub fn chars_of(text: &str) -> (chars: Vec<char>)
    ensures
        chars@ == text@,
{
    let mut chars: Vec<char> = Vec::new();
    for c in it: text.chars()
        invariant
            it.seq() == text@,
            chars@ == it.seq().take(it.index() as int),
    {
        chars.push(c);
    }
    chars
}

/// The text of the branch `names`: the names with a `/` between them.
pub open spec fn path_text(names: Seq<Seq<char>>) -> Seq<char>
    decreases names.len(),
{
    if names.len() == 0 {
        Seq::empty()
    } else if names.len() == 1 {
        names[0]
    } else {
        path_text(names.drop_last()) + "/"@ + names.last()
    }
}

/// Writes the branch `names` as text.
pub fn join_names(names: &Vec<String>) -> (text: String)
    ensures
        text@ == path_text(names.deep_view()),
{
    let ghost views = names.deep_view();
    let mut text = String::new();
    let mut i: usize = 0;
    while i < names.len()
        invariant
            i <= names.len(),
            views == names.deep_view(),
            text@ == path_text(views.take(i as int)),
        decreases names.len() - i,
    {
        assert(views.take(i as int + 1).drop_last() =~= views.take(i as int));
        if i > 0 {
            text.append("/");
        }
        text.append(names[i].as_str());
        i += 1;
    }
    assert(views.take(i as int) =~= views);
    text
}

/// `i` is the position of the last dot of `name`.
pub open spec fn is_last_dot(name: Seq<char>, i: int) -> bool {
    &&& 0 <= i < name.len()
    &&& name[i] == '.'
    &&& forall|j: int| i < j < name.len() ==> name[j] != '.'
}

/// The extension of the file name `name`: what follows its last dot.
/// A name without a dot has none, nor has one whose only dot is its first
/// character, nor has the name `..`.
pub open spec fn extension(name: Seq<char>) -> Option<Seq<char>> {
    if name.len() == 2 && name[0] == '.' && name[1] == '.' {
        None
    } else if exists|i: int| i > 0 && is_last_dot(name, i) {
        Some(name.skip((choose|i: int| i > 0 && is_last_dot(name, i)) + 1))
    } else {
        None
    }
}

/// Whether the extension of `name` is one of `extensions`.
pub open spec fn has_extension_in(name: Seq<char>, extensions: Seq<Seq<char>>) -> bool {
    match extension(name) {
        Some(ext) => extensions.contains(ext),
        None => false,
    }
}

/// Whether `name` has an extension and it is `ext`.
pub fn extension_is(name: &str, ext: &str) -> (yes: bool)
    ensures
        yes == (extension(name@) == Some(ext@)),
{
    let n = chars_of(name);
    let e = chars_of(ext);
    if n.len() == 2 && n[0] == '.' && n[1] == '.' {
        return false;
    }
    let mut i: usize = n.len();
    while i > 0 && n[i - 1] != '.'
        invariant
            i <= n.len(),
            forall|j: int| i <= j < n.len() ==> n[j] != '.',
        decreases i,
    {
        i -= 1;
    }
    if i <= 1 {
        proof {
            if i == 1 {
                assert(is_last_dot(name@, 0));
            }
        }
        return false;
    }
    proof {
        assert(is_last_dot(name@, i as int - 1));
        let k = choose|k: int| k > 0 && is_last_dot(name@, k);
        assert(k == i - 1);
    }
    if n.len() - i != e.len() {
        assert(name@.skip(i as int).len() != ext@.len());
        return false;
    }
    let mut k: usize = 0;
    while k < e.len()
        invariant
            k <= e.len(),
            n@ == name@,
            e@ == ext@,
            1 < i <= n.len(),
            n.len() - i == e.len(),
            forall|j: int| 0 <= j < k ==> n[i + j] == e[j],
        decreases e.len() - k,
    {
        if n[i + k] != e[k] {
            assert(name@.skip(i as int)[k as int] != ext@[k as int]);
            return false;
        }
        k += 1;
    }
    assert(name@.skip(i as int) =~= ext@);
    true
}

/// Whether the extension of `name` is one of `extensions`.
pub fn extension_among(name: &str, extensions: &[&str]) -> (yes: bool)
    ensures
        yes == has_extension_in(name@, extensions@.map_values(|e: &str| e@)),
{
    let ghost views = extensions@.map_values(|e: &str| e@);
    let mut i: usize = 0;
    while i < extensions.len()
        invariant
            i <= extensions.len(),
            views == extensions@.map_values(|e: &str| e@),
            forall|j: int| 0 <= j < i ==> extension(name@) != Some(views[j]),
        decreases extensions.len() - i,
    {
        if extension_is(name, extensions[i]) {
            assert(views[i as int] == extension(name@)->0);
            return true;
        }
        i += 1;
    }
    false
}

/// The file name of a path: the text of its last component, where that is
/// a `Normal` one.
pub open spec fn file_name(parts: Seq<ComponentView>) -> Option<Seq<char>> {
    if parts.len() == 0 {
        None
    } else {
        match parts.last() {
            ComponentView::Normal(name) => Some(name),
            _ => None,
        }
    }
}

/// Whether a file of the path `path` is collected from a directory: its
/// file name has one of the extensions `sv`, `v` and `md`.
pub open spec fn is_source_path(path: Seq<char>) -> bool {
    match file_name(path_components(path)) {
        Some(name) => has_extension_in(name, seq!["sv"@, "v"@, "md"@]),
        None => false,
    }
}

/// Whether a file of the path `path` is collected from a directory.
pub fn is_source_file(path: &str) -> (yes: bool)
    ensures
        yes == is_source_path(path@),
{
    let parts = split_path(path);
    if parts.len() == 0 {
        return false;
    }
    match &parts[parts.len() - 1] {
        PathComponent::Normal(name) => {
            let extensions = ["sv", "v", "md"];
            assert(extensions@.map_values(|e: &str| e@) =~= seq!["sv"@, "v"@, "md"@]);
            extension_among(name.as_str(), &extensions)
        },
        _ => false,
    }
}

/// The path that `std::path::Path::join` makes of `base` and `path`.
pub uninterp spec fn joined_path(base: Seq<char>, path: Seq<char>) -> Seq<char>;

/// Adjoins `path` to `base` with `std::path::Path::join`. The result is
/// taken to be a function of the two texts alone.
#[verifier::external_body]
pub(crate) fn join_path(base: &str, path: &str) -> (joined: String)
    ensures
        joined@ == joined_path(base@, path@),
{
    std::path::Path::new(base).join(path).to_string_lossy().into_owned()
}

} // verus!
