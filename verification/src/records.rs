//! The data model of a registry snapshot: version records, package records,
//! and graph nodes, together with their mathematical views.

use vstd::prelude::*;
use vstd::string::StringExecFns;

verus! {

/// One published version of a package: its declared dependencies
/// (dependency package name paired with a version-range expression) and an
/// opaque publish timestamp that is carried through to the node unchanged.
///
/// Dependency names are expected to be unique within one record; the edge
/// pass does not rely on it, it simply walks the list.
#[derive(Debug)]
pub struct VersionInfo {
    pub dependencies: Vec<(String, String)>,
    pub timestamp: String,
}

/// One package of the snapshot: its name and its published versions
/// (version string paired with the record of that version).
#[derive(Debug)]
pub struct PackageInfo {
    pub versions: Vec<(String, VersionInfo)>,
    pub name: String,
}

/// One node of the dependency graph: a single (package, version) pair,
/// labeled with the publish timestamp. Immutable once created.
#[derive(Debug)]
pub struct Node {
    pub name: String,
    pub version: String,
    pub timestamp: String,
}

/// The mathematical view of a `VersionInfo`.
pub ghost struct VersionInfoView {
    pub dependencies: Seq<(Seq<char>, Seq<char>)>,
    pub timestamp: Seq<char>,
}

/// The mathematical view of a `PackageInfo`.
pub ghost struct PackageInfoView {
    pub versions: Seq<(Seq<char>, VersionInfoView)>,
    pub name: Seq<char>,
}

/// The mathematical view of a `Node`.
pub ghost struct NodeView {
    pub name: Seq<char>,
    pub version: Seq<char>,
    pub timestamp: Seq<char>,
}

impl View for VersionInfo {
    type V = VersionInfoView;

    open spec fn view(&self) -> VersionInfoView {
        VersionInfoView {
            dependencies: Seq::new(
                self.dependencies@.len(),
                |i: int| (self.dependencies@[i].0@, self.dependencies@[i].1@),
            ),
            timestamp: self.timestamp@,
        }
    }
}

impl DeepView for VersionInfo {
    type V = VersionInfoView;

    open spec fn deep_view(&self) -> VersionInfoView {
        self.view()
    }
}

impl View for PackageInfo {
    type V = PackageInfoView;

    open spec fn view(&self) -> PackageInfoView {
        PackageInfoView {
            versions: Seq::new(
                self.versions@.len(),
                |i: int| (self.versions@[i].0@, self.versions@[i].1.view()),
            ),
            name: self.name@,
        }
    }
}

impl DeepView for PackageInfo {
    type V = PackageInfoView;

    open spec fn deep_view(&self) -> PackageInfoView {
        self.view()
    }
}

impl View for Node {
    type V = NodeView;

    open spec fn view(&self) -> NodeView {
        NodeView { name: self.name@, version: self.version@, timestamp: self.timestamp@ }
    }
}

impl DeepView for Node {
    type V = NodeView;

    open spec fn deep_view(&self) -> NodeView {
        self.view()
    }
}

/// The canonical string identifier of a (package, version) pair:
/// the name, a hyphen, and the version string.
pub open spec fn id_of(name: Seq<char>, version: Seq<char>) -> Seq<char> {
    name + seq!['-'] + version
}

impl NodeView {
    /// The canonical identifier of this node.
    pub open spec fn id(self) -> Seq<char> {
        id_of(self.name, self.version)
    }
}

/// Renders the canonical identifier `"{name}-{version}"` of a
/// (package, version) pair.
pub fn make_id(name: &String, version: &String) -> (r: String)
    ensures
        r@ == id_of(name@, version@),
{
    proof {
        reveal_strlit("-");
    }
    let r = String::from_str(name.as_str()).concat("-").concat(version.as_str());
    proof {
        assert(r@ =~= id_of(name@, version@));
    }
    r
}

impl Node {
    /// The canonical string identifier `"{name}-{version}"` of this node.
    pub fn identifier(&self) -> (r: String)
        ensures
            r@ == self@.id(),
    {
        make_id(&self.name, &self.version)
    }
}

} // verus!
