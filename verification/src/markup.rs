//! The markup tree: tokens are folded over an explicit stack into a nested
//! tree of styled nodes, and the tree renders depth-first into one escaped
//! string.

use vstd::prelude::*;

use crate::error::{ParsingError, ParsingErrorV};
use crate::parser::{tokenize, tokenize_spec, ParsingMode, TokV, Token};
use crate::style::{wrap_spec, CompiledStyle, Stylable, Style, StyleV};

verus! {

/// Mathematical image of a markup tree child.
#[verifier::ext_equal]
pub enum NodeV {
    /// A literal text run.
    Text(Seq<char>),
    /// A nested styled tree.
    Tree(MarkupV),
}

/// Mathematical image of a markup tree: the node's compiled escape payload
/// and its children, in order.
#[verifier::ext_equal]
pub struct MarkupV {
    /// The compiled escape payload of this node's style.
    pub st: Seq<char>,
    /// The children, in document order.
    pub children: Seq<NodeV>,
}

/// A child of a markup tree node.
#[derive(Debug, PartialEq, Eq)]
pub enum AstTk {
    /// A literal text run.
    Text(String),
    /// A nested styled tree.
    Tree(Markup),
}

/// Markup tree parent struct: a compiled style over an ordered child list;
/// rendering wraps the children's concatenated output in that style.
#[derive(Debug, PartialEq, Eq)]
pub struct Markup {
    /// Compiled style of this node.
    st: CompiledStyle,
    /// Children of this node.
    children: Vec<AstTk>,
}

/// Mathematical image of an [`AstTk`].
pub closed spec fn node_view(t: AstTk) -> NodeV
    decreases t,
{
    match t {
        AstTk::Text(s) => NodeV::Text(s@),
        AstTk::Tree(m) => NodeV::Tree(tree_view(m)),
    }
}

/// The views of a child list.
pub closed spec fn nodes_view(ts: Seq<AstTk>) -> Seq<NodeV>
    decreases ts,
{
    if ts.len() == 0 {
        Seq::empty()
    } else {
        seq![node_view(ts[0])] + nodes_view(ts.subrange(1, ts.len() as int))
    }
}

/// A child list's view is elementwise.
pub proof fn lemma_nodes_view(ts: Seq<AstTk>)
    ensures
        nodes_view(ts).len() == ts.len(),
        forall|i: int| 0 <= i < ts.len() ==> nodes_view(ts)[i] == node_view(ts[i]),
    decreases ts.len(),
{
    if ts.len() > 0 {
        lemma_nodes_view(ts.subrange(1, ts.len() as int));
    }
}

/// Mathematical image of a [`Markup`].
pub closed spec fn tree_view(m: Markup) -> MarkupV
    decreases m,
{
    MarkupV { st: m.st@, children: nodes_view(m.children@) }
}

/// The views of a builder stack.
spec fn stack_view(st: Seq<(Style, Vec<AstTk>)>) -> Seq<(StyleV, Seq<NodeV>)> {
    Seq::new(st.len(), |i: int| (st[i].0@, nodes_view(st[i].1@)))
}

// ---------------------------------------------------------------------------
// Building
// ---------------------------------------------------------------------------

/// The tree builder's fold over the token stream, from token `i` on. `stack`
/// holds the pending open tags, each with the sibling list collected before
/// it opened; `cur` is the sibling list of the innermost open tag.
pub open spec fn build_from(
    toks: Seq<TokV>,
    i: int,
    stack: Seq<(StyleV, Seq<NodeV>)>,
    cur: Seq<NodeV>,
) -> Result<MarkupV, ParsingErrorV>
    decreases toks.len() - i,
{
    if i < 0 || i >= toks.len() {
        if stack.len() > 0 {
            Err(ParsingErrorV::UnclosedTags)
        } else {
            Ok(MarkupV { st: StyleV::identity().collect(), children: cur })
        }
    } else {
        match toks[i] {
            TokV::Text(t) => build_from(toks, i + 1, stack, cur.push(NodeV::Text(t))),
            TokV::Fmt(sv) => build_from(toks, i + 1, stack.push((sv, cur)), Seq::empty()),
            TokV::Empty => build_from(
                toks,
                i + 1,
                stack.push((StyleV::identity(), cur)),
                Seq::empty(),
            ),
            TokV::End => {
                if stack.len() == 0 {
                    Err(ParsingErrorV::UnexpectedClosingTag)
                } else {
                    build_from(
                        toks,
                        i + 1,
                        stack.drop_last(),
                        stack.last().1.push(
                            NodeV::Tree(MarkupV { st: stack.last().0.collect(), children: cur }),
                        ),
                    )
                }
            },
        }
    }
}

/// The tree built from a whole token stream.
pub open spec fn build_spec(toks: Seq<TokV>) -> Result<MarkupV, ParsingErrorV> {
    build_from(toks, 0, Seq::empty(), Seq::empty())
}

/// The tree of a markup string: tokenize, then build.
pub open spec fn markup_spec(s: Seq<char>, cli: bool) -> Result<MarkupV, ParsingErrorV> {
    match tokenize_spec(s, cli) {
        Ok(toks) => build_spec(toks),
        Err(e) => Err(e),
    }
}

// ---------------------------------------------------------------------------
// Rendering
// ---------------------------------------------------------------------------

/// Depth-first, post-order rendering: the children render and concatenate in
/// order, and the node's compiled style wraps that concatenation.
pub open spec fn render_spec(m: MarkupV) -> Seq<char>
    decreases m,
{
    wrap_spec(render_cat(m.children), m.st)
}

/// The concatenation of the rendered children.
pub open spec fn render_cat(cs: Seq<NodeV>) -> Seq<char>
    decreases cs,
{
    if cs.len() == 0 {
        Seq::empty()
    } else {
        render_frag(cs[0]) + render_cat(cs.subrange(1, cs.len() as int))
    }
}

/// One rendered child: a text run renders as itself, a subtree renders on
/// its own.
pub open spec fn render_frag(n: NodeV) -> Seq<char>
    decreases n,
{
    match n {
        NodeV::Text(t) => t,
        NodeV::Tree(m) => render_spec(m),
    }
}

impl Markup {
    /// Parse markup text and return a new [`Markup`] tree.
    pub fn new(s: &str) -> (r: Result<Self, ParsingError>)
        ensures
            r is Ok <==> markup_spec(s@, false) is Ok,
            r matches Ok(m) ==> tree_view(m) == markup_spec(s@, false)->Ok_0,
            r matches Err(e) ==> e@ == markup_spec(s@, false)->Err_0,
    {
        Self::markup_parser(s, ParsingMode::Markup)
    }

    /// Parse markup text with the command-line hex marker convention.
    pub fn new_cli(s: &str) -> (r: Result<Self, ParsingError>)
        ensures
            r is Ok <==> markup_spec(s@, true) is Ok,
            r matches Ok(m) ==> tree_view(m) == markup_spec(s@, true)->Ok_0,
            r matches Err(e) ==> e@ == markup_spec(s@, true)->Err_0,
    {
        Self::markup_parser(s, ParsingMode::CommandLine)
    }

    /// This node's compiled style.
    pub fn compiled(&self) -> (r: &CompiledStyle)
        ensures
            r@ == tree_view(*self).st,
    {
        &self.st
    }

    /// This node's children, in document order.
    pub fn children(&self) -> (r: &Vec<AstTk>)
        ensures
            nodes_view(r@) == tree_view(*self).children,
    {
        &self.children
    }

    /// Parses a markup spec into a tree.
    pub fn markup_parser(s: &str, mode: ParsingMode) -> (r: Result<Self, ParsingError>)
        ensures
            r is Ok <==> markup_spec(s@, mode is CommandLine) is Ok,
            r matches Ok(m) ==> tree_view(m) == markup_spec(s@, mode is CommandLine)->Ok_0,
            r matches Err(e) ==> e@ == markup_spec(s@, mode is CommandLine)->Err_0,
    {
        let ghost cli = mode is CommandLine;
        let mut toks = match tokenize(s, mode) {
            Ok(toks) => toks,
            Err(e) => {
                return Err(e);
            },
        };
        let ghost tv = toks.deep_view();
        let mut stack: Vec<(Style, Vec<AstTk>)> = Vec::new();
        let mut current: Vec<AstTk> = Vec::new();
        let ghost mut j: int = 0;
        proof {
            assert(stack_view(stack@) =~= Seq::<(StyleV, Seq<NodeV>)>::empty());
            assert(nodes_view(current@) =~= Seq::<NodeV>::empty());
            assert(toks.deep_view() =~= tv.subrange(0, tv.len() as int));
        }
        while toks.len() > 0
            invariant
                0 <= j <= tv.len(),
                cli == (mode is CommandLine),
                tokenize_spec(s@, cli) is Ok,
                tv == tokenize_spec(s@, cli)->Ok_0,
                toks.deep_view() == tv.subrange(j, tv.len() as int),
                toks@.len() == tv.len() - j,
                build_spec(tv) == build_from(tv, j, stack_view(stack@), nodes_view(current@)),
            decreases toks@.len(),
        {
            proof {
                assert(toks.deep_view()[0] == toks@[0]@);
                assert(toks@[0]@ == tv[j]);
            }
            let ghost pretoks = toks@;
            let tk = toks.remove(0);
            proof {
                assert forall|k: int| 0 <= k < toks@.len() implies toks.deep_view()[k] == tv[j + 1
                    + k] by {
                    assert(toks@[k] == pretoks[k + 1]);
                    assert(pretoks[k + 1].deep_view() == tv.subrange(j, tv.len() as int)[k + 1]);
                }
                assert(toks.deep_view() =~= tv.subrange(j + 1, tv.len() as int));
            }
            match tk {
                Token::Text(text) => {
                    let ghost pre = nodes_view(current@);
                    let ghost precurv = current@;
                    let ghost tview = text@;
                    current.push(AstTk::Text(text));
                    proof {
                        lemma_nodes_view(precurv);
                        lemma_nodes_view(current@);
                        assert(nodes_view(current@) =~= pre.push(NodeV::Text(tview)));
                    }
                },
                Token::Fmt(style) => {
                    let ghost prestack = stack_view(stack@);
                    let ghost precur = nodes_view(current@);
                    let ghost sv = style@;
                    stack.push((style, current));
                    current = Vec::new();
                    proof {
                        assert(stack_view(stack@) =~= prestack.push((sv, precur)));
                        assert(nodes_view(current@) =~= Seq::<NodeV>::empty());
                    }
                },
                Token::Empty => {
                    let ghost prestack = stack_view(stack@);
                    let ghost precur = nodes_view(current@);
                    let style = Style::new();
                    stack.push((style, current));
                    current = Vec::new();
                    proof {
                        assert(stack_view(stack@) =~= prestack.push(
                            (StyleV::identity(), precur),
                        ));
                        assert(nodes_view(current@) =~= Seq::<NodeV>::empty());
                    }
                },
                Token::End => {
                    let ghost prestack = stack_view(stack@);
                    let ghost precur = nodes_view(current@);
                    match stack.pop() {
                        None => {
                            return Err(ParsingError::UnexpectedClosingTag);
                        },
                        Some((style, mut parent)) => {
                            proof {
                                assert(prestack.last() == (style@, nodes_view(parent@)));
                                assert(stack_view(stack@) =~= prestack.drop_last());
                            }
                            let ghost preparent = nodes_view(parent@);
                            let ghost preparentv = parent@;
                            let node = Markup { st: style.compile(), children: current };
                            proof {
                                assert(tree_view(node) =~= (MarkupV {
                                    st: style@.collect(),
                                    children: precur,
                                })) by {
                                    assert(nodes_view(node.children@) =~= precur);
                                }
                            }
                            parent.push(AstTk::Tree(node));
                            proof {
                                lemma_nodes_view(preparentv);
                                lemma_nodes_view(parent@);
                                assert(nodes_view(parent@) =~= preparent.push(
                                    NodeV::Tree(
                                        MarkupV { st: style@.collect(), children: precur },
                                    ),
                                ));
                            }
                            current = parent;
                        },
                    }
                },
            }
            proof {
                j = j + 1;
            }
        }
        proof {
            assert(toks.deep_view().len() == 0);
            assert(j == tv.len());
        }
        if stack.len() > 0 {
            return Err(ParsingError::UnclosedTags);
        }
        let root = Markup { st: Style::new().compile(), children: current };
        proof {
            assert(tree_view(root) =~= (MarkupV {
                st: StyleV::identity().collect(),
                children: nodes_view(current@),
            })) by {
                assert(nodes_view(root.children@) =~= nodes_view(current@));
            }
        }
        Ok(root)
    }

    /// Collect and merge the tree into the final escaped output.
    pub fn render(self) -> (out: String)
        ensures
            out@ == render_spec(tree_view(self)),
        decreases self,
    {
        let ghost m0 = self;
        let ghost total = tree_view(m0).children;
        let Markup { st, children } = self;
        let mut children = children;
        let mut body = String::new();
        let ghost mut j: int = 0;
        proof {
            lemma_nodes_view(m0.children@);
            assert(children@ =~= m0.children@.subrange(0, m0.children@.len() as int));
            assert(Seq::<char>::empty() + render_cat(total) =~= render_cat(total));
            assert(total.subrange(0, total.len() as int) =~= total);
        }
        while children.len() > 0
            invariant
                m0 == self,
                0 <= j <= m0.children@.len(),
                total == tree_view(m0).children,
                total.len() == m0.children@.len(),
                st == m0.st,
                children@ == m0.children@.subrange(j, m0.children@.len() as int),
                body@ + render_cat(total.subrange(j, total.len() as int)) == render_cat(total),
            decreases children@.len(),
        {
            proof {
                assert(children@[0] == m0.children@[j]);
                lemma_nodes_view(m0.children@);
                assert(total[j] == node_view(m0.children@[j]));
            }
            let tk = children.remove(0);
            proof {
                assert(children@ =~= m0.children@.subrange(j + 1, m0.children@.len() as int));
                let restj = total.subrange(j, total.len() as int);
                assert(restj[0] == total[j]);
                assert(restj.subrange(1, restj.len() as int) =~= total.subrange(
                    j + 1,
                    total.len() as int,
                ));
            }
            let ghost prebody = body@;
            match tk {
                AstTk::Text(text) => {
                    proof {
                        assert(text@ == render_frag(total[j]));
                    }
                    body.append(text.as_str());
                },
                AstTk::Tree(ast) => {
                    proof {
                        assert(decreases_to!(m0 => ast)) by {
                            assert(m0.children@[j] == AstTk::Tree(ast));
                            assert(decreases_to!(m0 => m0.children));
                            assert(decreases_to!(m0.children => m0.children@));
                            assert(decreases_to!(m0.children@ => m0.children@[j]));
                            assert(decreases_to!(m0.children@[j] => ast));
                        }
                    }
                    let frag = ast.render();
                    proof {
                        assert(frag@ == render_frag(total[j]));
                    }
                    body.append(frag.as_str());
                },
            }
            proof {
                let tail = render_cat(total.subrange(j + 1, total.len() as int));
                assert((prebody + render_frag(total[j])) + tail =~= prebody + (render_frag(
                    total[j],
                ) + tail));
                j = j + 1;
            }
        }
        proof {
            assert(children@.len() == 0);
            assert(j == m0.children@.len());
            assert(total.subrange(j, total.len() as int) =~= Seq::<NodeV>::empty());
            assert(body@ + Seq::<char>::empty() =~= body@);
        }
        let out = st.style(body.as_str());
        out
    }
}

} // verus!
