//! The credits screen: the game's title with its version, and one entry per
//! dependency of its manifest, linked to the dependency's page on crates.io
//! where the manifest names a version.

use vstd::prelude::*;
use cargo_toml::{Dependency, Manifest};

verus! {

/// How the manifest names a dependency.
#[derive(Debug)]
pub enum DependencySpec {
    /// By a version requirement alone.
    Simple(String),
    /// Inherited from the workspace.
    Inherited,
    /// By a table, which may hold a version requirement.
    Detailed(Option<String>),
}

/// How the manifest names a dependency, as plain values.
pub enum DependencyView {
    Simple(Seq<char>),
    Inherited,
    Detailed(Option<Seq<char>>),
}

impl View for DependencySpec {
    type V = DependencyView;

    open spec fn view(&self) -> DependencyView {
        match self {
            DependencySpec::Simple(v) => DependencyView::Simple(v@),
            DependencySpec::Inherited => DependencyView::Inherited,
            DependencySpec::Detailed(v) => DependencyView::Detailed(
                match v {
                    Some(v) => Some(v@),
                    None => None,
                },
            ),
        }
    }
}

/// One line of the credits: a dependency's name, its version as shown, and
/// the page it links to, if any.
#[derive(Debug)]
pub struct CreditEntry {
    pub name: String,
    pub version: String,
    pub link: Option<String>,
}

/// The credits screen's text.
#[derive(Debug)]
pub struct Credits {
    pub title: String,
    pub entries: Vec<CreditEntry>,
}

/// What `cargo_toml::Manifest::from_slice` reads from the bytes of a
/// manifest: `None` where they are no manifest; otherwise the package's
/// version (`None` without a package section, `Some(None)` where the version
/// is inherited) and the dependencies in the manifest's order, which is by
/// name, each with the variant of `cargo_toml::Dependency` it was read as and
/// the version requirement that variant holds.
pub uninterp spec fn manifest_read(bytes: Seq<u8>) -> Option<
    (Option<Option<Seq<char>>>, Seq<(Seq<char>, DependencyView)>),
>;

/// The package version as plain text values.
pub open spec fn version_view(v: Option<Option<String>>) -> Option<Option<Seq<char>>> {
    match v {
        Some(Some(s)) => Some(Some(s@)),
        Some(None) => Some(None),
        None => None,
    }
}

/// A list of dependencies as plain values.
pub open spec fn deps_view(deps: Seq<(String, DependencySpec)>) -> Seq<(Seq<char>, DependencyView)> {
    deps.map_values(|p: (String, DependencySpec)| (p.0@, p.1@))
}

/// Reads a manifest with `cargo_toml::Manifest::from_slice`, then takes the
/// package's version with `Inheritable::get` and the dependencies of
/// `Manifest::dependencies`, each `cargo_toml::Dependency` turned into a
/// `DependencySpec` of the same variant with the version requirement it
/// holds. Claimed: the outcome depends on the bytes alone and is
/// `manifest_read` of them.
#[verifier::external_body]
fn read_manifest(bytes: &[u8]) -> (r: Option<(Option<Option<String>>, Vec<(String, DependencySpec)>)>)
    ensures
        r is None <==> manifest_read(bytes@) is None,
        r matches Some((v, deps)) ==> manifest_read(bytes@) == Some(
            (version_view(v), deps_view(deps@)),
        ),
{
    let m = match Manifest::from_slice(bytes) {
        Ok(m) => m,
        Err(_) => return None,
    };
    let version = match &m.package {
        Some(p) => Some(p.version.get().ok().cloned()),
        None => None,
    };
    let deps = m.dependencies.into_iter().map(|(name, dep)| match dep {
        Dependency::Simple(v) => (name, DependencySpec::Simple(v)),
        Dependency::Inherited(_) => (name, DependencySpec::Inherited),
        Dependency::Detailed(info) => (name, DependencySpec::Detailed(info.version)),
    });
    Some((version, deps.collect()))
}

/// The version shown for a dependency: its requirement, or "None" where the
/// manifest gives none.
pub open spec fn version_text(d: DependencyView) -> Seq<char> {
    match d {
        DependencyView::Simple(v) => v,
        DependencyView::Inherited => "None"@,
        DependencyView::Detailed(v) => match v {
            Some(v) => v,
            None => "None"@,
        },
    }
}

/// The page of a crate on crates.io.
pub open spec fn crate_page(name: Seq<char>) -> Seq<char> {
    "https://crates.io/crates/"@ + name
}

/// The entry shown for dependency `name`: linked to its page unless the
/// version shown is "None".
pub open spec fn entry_matches(e: CreditEntry, name: Seq<char>, d: DependencyView) -> bool {
    &&& e.name@ == name
    &&& e.version@ == version_text(d)
    &&& if version_text(d) != "None"@ {
        e.link matches Some(l) && l@ == crate_page(name)
    } else {
        e.link is None
    }
}

/// The title of the credits, given the package's version.
pub open spec fn title_text(version: Option<Seq<char>>) -> Seq<char> {
    "rps_sim v"@ + match version {
        Some(v) => v,
        None => "?.?.?"@,
    }
}

/// The version shown for a dependency.
pub fn dependency_version(d: &DependencySpec) -> (r: String)
    ensures
        r@ == version_text(d@),
{
    match d {
        DependencySpec::Simple(v) => v.clone(),
        DependencySpec::Inherited => String::from_str("None"),
        DependencySpec::Detailed(v) => match v {
            Some(v) => v.clone(),
            None => String::from_str("None"),
        },
    }
}

/// The credits entry of dependency `name`.
pub fn credit_entry(name: &String, d: &DependencySpec) -> (e: CreditEntry)
    ensures
        entry_matches(e, name@, d@),
{
    let version = dependency_version(d);
    let none = String::from_str("None");
    let link = if version != none {
        let page = String::from_str("https://crates.io/crates/");
        Some(page.concat(name.as_str()))
    } else {
        None
    };
    CreditEntry { name: name.clone(), version, link }
}

/// The credits entries of the dependencies, in their order.
pub fn credit_entries(deps: &Vec<(String, DependencySpec)>) -> (r: Vec<CreditEntry>)
    ensures
        r.len() == deps.len(),
        forall|i: int|
            0 <= i < deps.len() ==> entry_matches(#[trigger] r@[i], deps@[i].0@, deps@[i].1@),
{
    let mut r: Vec<CreditEntry> = Vec::new();
    let mut i: usize = 0;
    while i < deps.len()
        invariant
            i <= deps.len(),
            r.len() == i,
            forall|k: int|
                0 <= k < i ==> entry_matches(#[trigger] r@[k], deps@[k].0@, deps@[k].1@),
        decreases deps.len() - i,
    {
        let e = credit_entry(&deps[i].0, &deps[i].1);
        r.push(e);
        i = i + 1;
    }
    r
}

/// The title of the credits: "rps_sim v" and the package's version, or
/// "?.?.?" where the version is not known.
pub fn credit_title(version: &Option<String>) -> (r: String)
    ensures
        r@ == title_text(
            match version {
                Some(v) => Some(v@),
                None => None,
            },
        ),
{
    let head = String::from_str("rps_sim v");
    match version {
        Some(v) => head.concat(v.as_str()),
        None => head.concat("?.?.?"),
    }
}

/// The credits read from the bytes of the game's manifest: `None` where the
/// bytes are no manifest or the manifest has no package section; otherwise
/// the title with the package's version and one entry per dependency, in the
/// manifest's order.
pub fn read_credits(manifest: &[u8]) -> (r: Option<Credits>)
    ensures
        r is None <==> (manifest_read(manifest@) is None || manifest_read(manifest@).unwrap().0 is None),
        r matches Some(c) ==> {
            let (version, deps) = manifest_read(manifest@).unwrap();
            &&& c.title@ == title_text(version.unwrap())
            &&& c.entries.len() == deps.len()
            &&& forall|i: int|
                0 <= i < deps.len() ==> entry_matches(#[trigger] c.entries@[i], deps[i].0, deps[i].1)
        },
{
    let (version, deps) = match read_manifest(manifest) {
        Some(read) => read,
        None => {
            return None;
        },
    };
    let version = match version {
        Some(v) => v,
        None => {
            return None;
        },
    };
    let title = credit_title(&version);
    let entries = credit_entries(&deps);
    Some(Credits { title, entries })
}

} // verus!
