//! An XML document as a flat list of nodes in document order, each knowing
//! its parent. `roxmltree` does the parsing; everything read out of the tree
//! is read here.

use vstd::prelude::*;
use crate::model::opt_view;
use crate::text::{chars_eq, chars_of, trim, trim_chars, string_of};

verus! {

/// One node of a parsed document.
#[derive(Debug, Clone, PartialEq, Eq)]
pub struct XmlNode {
    pub is_element: bool,
    /// The element's namespace URI.
    pub namespace: Option<String>,
    /// The element's local name; empty for other nodes.
    pub name: String,
    /// An element's text is that of its first child when that child is
    /// text; a text node's is its own.
    pub text: Option<String>,
    /// The position of the parent in the list; `None` for the document root.
    pub parent: Option<usize>,
}

/// An element with this namespace and local name.
pub open spec fn tag_is(n: XmlNode, ns: Seq<char>, name: Seq<char>) -> bool {
    n.is_element && opt_view(n.namespace) == Some(ns) && n.name@ == name
}

/// Node `j` lies in the subtree rooted at node `i` (`i` itself included),
/// following parents, which always come earlier in document order.
pub open spec fn under(t: Seq<XmlNode>, i: int, j: int) -> bool
    decreases j,
{
    if j == i {
        true
    } else if 0 <= j < t.len() && t[j].parent is Some && (t[j].parent->0 as int) < j
        && t[j].parent->0 >= i {
        under(t, i, t[j].parent->0 as int)
    } else {
        false
    }
}

/// Node `j` is a child of node `i`.
pub open spec fn child_of(t: Seq<XmlNode>, i: int, j: int) -> bool {
    0 <= j < t.len() && t[j].parent == Some(i as usize)
}

/// The first node at or after `from`, in document order, that is in the
/// subtree of `root` (or, with `children_only`, a child of it) and has this
/// tag.
pub open spec fn first_tag(
    t: Seq<XmlNode>,
    root: int,
    from: int,
    children_only: bool,
    ns: Seq<char>,
    name: Seq<char>,
) -> Option<int>
    decreases t.len() - from,
{
    if from < 0 || from >= t.len() {
        None
    } else if (if children_only {
        child_of(t, root, from)
    } else {
        under(t, root, from)
    }) && tag_is(t[from], ns, name) {
        Some(from)
    } else {
        first_tag(t, root, from + 1, children_only, ns, name)
    }
}

/// Every parent comes before its child.
pub open spec fn tree_ok(t: Seq<XmlNode>) -> bool {
    forall|j: int| 0 <= j < t.len() && (#[trigger] t[j]).parent is Some ==> (t[j].parent->0 as int) < j
}

/// The node list `roxmltree` makes of a text: every node in document order,
/// each with its parent's position; `None` where the crate refuses the text.
pub uninterp spec fn xml_document(text: Seq<char>) -> Option<Seq<XmlNode>>;

/// The document as the library reads it: the crate's node list, where it
/// has nodes and every parent comes before its child.
pub open spec fn xml_tree(text: Seq<char>) -> Option<Seq<XmlNode>> {
    match xml_document(text) {
        Some(d) => if d.len() > 0 && tree_ok(d) {
            Some(d)
        } else {
            None
        },
        None => None,
    }
}

/// The nodes of a document `roxmltree::Document::parse` accepts, in the
/// order of `descendants()`, each with its tag, its text and the position of
/// its parent. The contract names that list `xml_document` and says nothing
/// more of it.
#[verifier::external_body]
fn parse_nodes(text: &str) -> (r: Option<Vec<XmlNode>>)
    ensures
        match r {
            Some(v) => xml_document(text@) == Some(v@),
            None => xml_document(text@) is None,
        },
{
    let doc = roxmltree::Document::parse(text).ok()?;
    let nodes = doc.descendants().map(|n| XmlNode {
        is_element: n.is_element(),
        namespace: n.tag_name().namespace().map(str::to_owned),
        name: n.tag_name().name().to_owned(),
        text: n.text().map(str::to_owned),
        parent: n.parent().map(|p| p.id().get_usize()),
    }).collect();
    Some(nodes)
}

/// Parses a document into its node list; `None` for text that is not XML.
pub fn parse_tree(text: &str) -> (r: Option<Vec<XmlNode>>)
    ensures
        match r {
            Some(t) => xml_tree(text@) == Some(t@),
            None => xml_tree(text@) is None,
        },
        r matches Some(t) ==> tree_ok(t@) && t@.len() > 0,
{
    let t = match parse_nodes(text) {
        Some(t) => t,
        None => {
            return None;
        },
    };
    if t.len() == 0 {
        return None;
    }
    let mut j: usize = 0;
    while j < t.len()
        invariant
            j <= t.len(),
            xml_document(text@) == Some(t@),
            forall|k: int| 0 <= k < j && (#[trigger] t@[k]).parent is Some ==> (t@[k].parent->0 as int) < k,
        decreases t.len() - j,
    {
        match t[j].parent {
            Some(p) => if p >= j {
                assert(!tree_ok(t@));
                return None;
            },
            None => {},
        }
        j += 1;
    }
    Some(t)
}

fn tag_is_exec(n: &XmlNode, ns: &Vec<char>, name: &Vec<char>) -> (r: bool)
    ensures
        r == tag_is(*n, ns@, name@),
{
    if !n.is_element {
        return false;
    }
    match &n.namespace {
        Some(s) => chars_eq(&chars_of(s.as_str()), ns) && chars_eq(&chars_of(n.name.as_str()), name),
        None => false,
    }
}

/// Whether node `j` is in the subtree of node `i`.
pub fn is_under(t: &Vec<XmlNode>, i: usize, j: usize) -> (r: bool)
    ensures
        r == under(t@, i as int, j as int),
{
    let mut cur = j;
    while cur != i
        invariant
            under(t@, i as int, j as int) == under(t@, i as int, cur as int),
        decreases cur,
    {
        if cur >= t.len() {
            return false;
        }
        match t[cur].parent {
            Some(p) => {
                if p < cur && p >= i {
                    cur = p;
                } else {
                    return false;
                }
            },
            None => {
                return false;
            },
        }
    }
    true
}

/// The first node from `from` on with this tag, in the subtree of `root` or
/// among its children.
pub fn find_tag(
    t: &Vec<XmlNode>,
    root: usize,
    from: usize,
    children_only: bool,
    ns: &Vec<char>,
    name: &Vec<char>,
) -> (r: Option<usize>)
    ensures
        match r {
            Some(k) => first_tag(t@, root as int, from as int, children_only, ns@, name@) == Some(
                k as int,
            ),
            None => first_tag(t@, root as int, from as int, children_only, ns@, name@) is None,
        },
        r matches Some(k) ==> k < t@.len(),
{
    let mut j = from;
    while j < t.len()
        invariant
            from <= j,
            first_tag(t@, root as int, from as int, children_only, ns@, name@) == first_tag(
                t@,
                root as int,
                j as int,
                children_only,
                ns@,
                name@,
            ),
        decreases t.len() - j,
    {
        let placed = if children_only {
            t[j].parent == Some(root)
        } else {
            is_under(t, root, j)
        };
        if placed && tag_is_exec(&t[j], ns, name) {
            return Some(j);
        }
        j += 1;
    }
    None
}

/// A node's text, trimmed.
pub open spec fn trimmed_text(n: XmlNode) -> Option<Seq<char>> {
    match n.text {
        Some(s) => Some(trim(s@)),
        None => None,
    }
}

pub fn text_trimmed(n: &XmlNode) -> (r: Option<String>)
    ensures
        opt_view(r) == trimmed_text(*n),
{
    match &n.text {
        Some(s) => Some(string_of(&trim_chars(&chars_of(s.as_str())))),
        None => None,
    }
}

/// A direct child's text, trimmed, rather than any descendant's: a response
/// carries its own `href`, and so can every property inside it.
pub open spec fn child_text_spec(t: Seq<XmlNode>, node: int, ns: Seq<char>, name: Seq<char>) -> Option<
    Seq<char>,
> {
    match first_tag(t, node, 0, true, ns, name) {
        Some(c) => trimmed_text(t[c]),
        None => None,
    }
}

/// The text of the first child of `node` with this tag, trimmed.
pub fn child_text(t: &Vec<XmlNode>, node: usize, ns: &str, name: &str) -> (r: Option<String>)
    ensures
        opt_view(r) == child_text_spec(t@, node as int, ns@, name@),
{
    match find_tag(t, node, 0, true, &chars_of(ns), &chars_of(name)) {
        Some(c) => text_trimmed(&t[c]),
        None => None,
    }
}

} // verus!
