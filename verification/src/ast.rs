//! Typed views of syntax nodes and tokens, and the lookups of children that the
//! typed nodes are built on.
use std::rc::Rc;
use vstd::prelude::*;

use crate::syntax::{LuaSyntaxElement, LuaSyntaxKind, LuaSyntaxNode, LuaSyntaxToken, LuaTokenKind};

verus! {

/// A typed view of syntax nodes of some kinds.
pub trait LuaAstNode: Sized {
    /// The node kinds that this type views.
    spec fn kind_fits(kind: LuaSyntaxKind) -> bool;

    /// The node viewed.
    spec fn node_of(&self) -> Rc<LuaSyntaxNode>;

    /// The node viewed.
    fn syntax(&self) -> (r: &Rc<LuaSyntaxNode>)
        ensures
            *r == self.node_of(),
    ;

    /// Whether nodes of `kind` can be viewed as this type.
    fn can_cast(kind: LuaSyntaxKind) -> (r: bool)
        ensures
            r == Self::kind_fits(kind),
    ;

    /// Views `syntax` as this type, when its kind fits.
    fn cast(syntax: Rc<LuaSyntaxNode>) -> (r: Option<Self>)
        ensures
            r is Some <==> Self::kind_fits(syntax.kind),
            r matches Some(n) ==> n.node_of() == syntax,
    ;
}

/// A typed view of tokens of some kinds.
pub trait LuaAstToken: Sized {
    /// The token kinds that this type views.
    spec fn token_kind_fits(kind: LuaTokenKind) -> bool;

    /// The token viewed.
    spec fn token_of(&self) -> Rc<LuaSyntaxToken>;

    /// The token viewed.
    fn syntax(&self) -> (r: &Rc<LuaSyntaxToken>)
        ensures
            *r == self.token_of(),
    ;

    /// Whether tokens of `kind` can be viewed as this type.
    fn can_cast(kind: LuaTokenKind) -> (r: bool)
        ensures
            r == Self::token_kind_fits(kind),
    ;

    /// Views `syntax` as this type, when its kind fits.
    fn cast(syntax: Rc<LuaSyntaxToken>) -> (r: Option<Self>)
        ensures
            r is Some <==> Self::token_kind_fits(syntax.kind),
            r matches Some(t) ==> t.token_of() == syntax,
    ;
}

/// The child is a node that `N` views.
pub open spec fn fits<N: LuaAstNode>(e: LuaSyntaxElement) -> bool {
    match e {
        LuaSyntaxElement::Node(n) => N::kind_fits(n.kind),
        LuaSyntaxElement::Token(_) => false,
    }
}

/// The child is a token that `T` views.
pub open spec fn token_fits<T: LuaAstToken>(e: LuaSyntaxElement) -> bool {
    match e {
        LuaSyntaxElement::Token(t) => T::token_kind_fits(t.kind),
        LuaSyntaxElement::Node(_) => false,
    }
}

/// The child is a token of kind `kind`.
pub open spec fn token_is(e: LuaSyntaxElement, kind: LuaTokenKind) -> bool {
    match e {
        LuaSyntaxElement::Token(t) => t.kind == kind,
        LuaSyntaxElement::Node(_) => false,
    }
}

/// The node of a child that is a node.
pub open spec fn elem_node(e: LuaSyntaxElement) -> Rc<LuaSyntaxNode> {
    match e {
        LuaSyntaxElement::Node(n) => n,
        LuaSyntaxElement::Token(_) => arbitrary(),
    }
}

/// The token of a child that is a token.
pub open spec fn elem_token(e: LuaSyntaxElement) -> Rc<LuaSyntaxToken> {
    match e {
        LuaSyntaxElement::Token(t) => t,
        LuaSyntaxElement::Node(_) => arbitrary(),
    }
}

/// The nodes among `s` that `N` views, in order.
pub open spec fn fitting<N: LuaAstNode>(s: Seq<LuaSyntaxElement>) -> Seq<Rc<LuaSyntaxNode>>
    decreases s.len(),
{
    if s.len() == 0 {
        Seq::<Rc<LuaSyntaxNode>>::empty()
    } else if fits::<N>(s.last()) {
        fitting::<N>(s.drop_last()).push(elem_node(s.last()))
    } else {
        fitting::<N>(s.drop_last())
    }
}

/// Every child that `N` views is among the views collected from the children.
pub proof fn lemma_fitting_contains<N: LuaAstNode>(s: Seq<LuaSyntaxElement>, i: int)
    requires
        0 <= i < s.len(),
        fits::<N>(s[i]),
    ensures
        fitting::<N>(s).contains(elem_node(s[i])),
    decreases s.len(),
{
    let init = s.drop_last();
    if i == s.len() - 1 {
        let r = fitting::<N>(s);
        assert(r[r.len() - 1] == elem_node(s[i]));
    } else {
        assert(init[i] == s[i]);
        lemma_fitting_contains::<N>(init, i);
        let k = choose|k: int| 0 <= k < fitting::<N>(init).len() && fitting::<N>(init)[k] == elem_node(s[i]);
        assert(fitting::<N>(s)[k] == elem_node(s[i]));
    }
}

/// `r` is the view of the first child in `s` that `N` views, or none when there
/// is no such child.
pub open spec fn is_first_child<N: LuaAstNode>(s: Seq<LuaSyntaxElement>, r: Option<N>) -> bool {
    match r {
        Some(n) => exists|i: int|
            0 <= i < s.len() && fits::<N>(#[trigger] s[i]) && elem_node(s[i]) == n.node_of()
                && forall|j: int| 0 <= j < i ==> !fits::<N>(#[trigger] s[j]),
        None => forall|i: int| 0 <= i < s.len() ==> !fits::<N>(#[trigger] s[i]),
    }
}

/// `r` is the view of the last child in `s` that `N` views, or none when there
/// is no such child.
pub open spec fn is_last_child<N: LuaAstNode>(s: Seq<LuaSyntaxElement>, r: Option<N>) -> bool {
    match r {
        Some(n) => exists|i: int|
            0 <= i < s.len() && fits::<N>(#[trigger] s[i]) && elem_node(s[i]) == n.node_of()
                && forall|j: int| i < j < s.len() ==> !fits::<N>(#[trigger] s[j]),
        None => forall|i: int| 0 <= i < s.len() ==> !fits::<N>(#[trigger] s[i]),
    }
}

/// `r` is the view of the first token child in `s` that `T` views, or none.
pub open spec fn is_first_token<T: LuaAstToken>(s: Seq<LuaSyntaxElement>, r: Option<T>) -> bool {
    match r {
        Some(t) => exists|i: int|
            0 <= i < s.len() && token_fits::<T>(#[trigger] s[i]) && elem_token(s[i]) == t.token_of()
                && forall|j: int| 0 <= j < i ==> !token_fits::<T>(#[trigger] s[j]),
        None => forall|i: int| 0 <= i < s.len() ==> !token_fits::<T>(#[trigger] s[i]),
    }
}

/// `r` is the first token child in `s` of kind `kind`, or none.
pub open spec fn is_first_token_of_kind(
    s: Seq<LuaSyntaxElement>,
    kind: LuaTokenKind,
    r: Option<Rc<LuaSyntaxToken>>,
) -> bool {
    match r {
        Some(t) => exists|i: int|
            0 <= i < s.len() && token_is(#[trigger] s[i], kind) && elem_token(s[i]) == t
                && forall|j: int| 0 <= j < i ==> !token_is(#[trigger] s[j], kind),
        None => forall|i: int| 0 <= i < s.len() ==> !token_is(#[trigger] s[i], kind),
    }
}

/// The first child of `node` that `N` views.
pub fn child<N: LuaAstNode>(node: &LuaSyntaxNode) -> (r: Option<N>)
    ensures
        is_first_child::<N>(node.children@, r),
{
    let mut i: usize = 0;
    while i < node.children.len()
        invariant
            i <= node.children@.len(),
            forall|j: int| 0 <= j < i ==> !fits::<N>(#[trigger] node.children@[j]),
        decreases node.children.len() - i,
    {
        match &node.children[i] {
            LuaSyntaxElement::Node(n) => {
                if N::can_cast(n.kind) {
                    let r = N::cast(n.clone());
                    proof {
                        assert(fits::<N>(node.children@[i as int]));
                    }
                    return r;
                }
            },
            LuaSyntaxElement::Token(_) => {},
        }
        i = i + 1;
    }
    None
}

/// The last child of `node` that `N` views.
pub fn last_child<N: LuaAstNode>(node: &LuaSyntaxNode) -> (r: Option<N>)
    ensures
        is_last_child::<N>(node.children@, r),
{
    let mut i: usize = node.children.len();
    while i > 0
        invariant
            i <= node.children@.len(),
            forall|j: int| i <= j < node.children@.len() ==> !fits::<N>(#[trigger] node.children@[j]),
        decreases i,
    {
        i = i - 1;
        match &node.children[i] {
            LuaSyntaxElement::Node(n) => {
                if N::can_cast(n.kind) {
                    let r = N::cast(n.clone());
                    proof {
                        assert(fits::<N>(node.children@[i as int]));
                    }
                    return r;
                }
            },
            LuaSyntaxElement::Token(_) => {},
        }
    }
    None
}

/// The views of all children of `node` that `N` views, in order.
pub fn children<N: LuaAstNode>(node: &LuaSyntaxNode) -> (r: Vec<N>)
    ensures
        r@.map_values(|n: N| n.node_of()) == fitting::<N>(node.children@),
{
    let mut r: Vec<N> = Vec::new();
    let mut i: usize = 0;
    while i < node.children.len()
        invariant
            i <= node.children@.len(),
            r@.map_values(|n: N| n.node_of()) == fitting::<N>(node.children@.take(i as int)),
        decreases node.children.len() - i,
    {
        let ghost s = node.children@.take(i + 1);
        proof {
            assert(s.drop_last() =~= node.children@.take(i as int));
            assert(s.last() == node.children@[i as int]);
        }
        match &node.children[i] {
            LuaSyntaxElement::Node(n) => {
                if N::can_cast(n.kind) {
                    match N::cast(n.clone()) {
                        Some(x) => {
                            let ghost before = r@.map_values(|n: N| n.node_of());
                            r.push(x);
                            proof {
                                assert(r@.map_values(|n: N| n.node_of()) =~= before.push(x.node_of()));
                            }
                        },
                        None => {},
                    }
                }
            },
            LuaSyntaxElement::Token(_) => {},
        }
        i = i + 1;
    }
    proof {
        assert(node.children@.take(i as int) =~= node.children@);
    }
    r
}

/// The first token child of `node` that `T` views.
pub fn token<T: LuaAstToken>(node: &LuaSyntaxNode) -> (r: Option<T>)
    ensures
        is_first_token::<T>(node.children@, r),
{
    let mut i: usize = 0;
    while i < node.children.len()
        invariant
            i <= node.children@.len(),
            forall|j: int| 0 <= j < i ==> !token_fits::<T>(#[trigger] node.children@[j]),
        decreases node.children.len() - i,
    {
        match &node.children[i] {
            LuaSyntaxElement::Token(t) => {
                if T::can_cast(t.kind) {
                    let r = T::cast(t.clone());
                    proof {
                        assert(token_fits::<T>(node.children@[i as int]));
                    }
                    return r;
                }
            },
            LuaSyntaxElement::Node(_) => {},
        }
        i = i + 1;
    }
    None
}

/// The first token child of `node` of kind `kind`.
pub fn token_by_kind(node: &LuaSyntaxNode, kind: LuaTokenKind) -> (r: Option<Rc<LuaSyntaxToken>>)
    ensures
        is_first_token_of_kind(node.children@, kind, r),
{
    let mut i: usize = 0;
    while i < node.children.len()
        invariant
            i <= node.children@.len(),
            forall|j: int| 0 <= j < i ==> !token_is(#[trigger] node.children@[j], kind),
        decreases node.children.len() - i,
    {
        match &node.children[i] {
            LuaSyntaxElement::Token(t) => {
                if t.kind == kind {
                    proof {
                        assert(token_is(node.children@[i as int], kind));
                    }
                    return Some(t.clone());
                }
            },
            LuaSyntaxElement::Node(_) => {},
        }
        i = i + 1;
    }
    None
}

} // verus!
