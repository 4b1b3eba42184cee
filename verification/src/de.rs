//! The deserializer core: drives the token stream, manages nested
//! element entry and exit with the namespace scope stack, yields
//! attributes and text to the adapters, and skips unknown subtrees.
//!
//! It works over a token vector, either obtained from the token source
//! or built directly; its methods keep the open-element stack and the
//! scope stack in lock step, one frame per entered element.

use vstd::prelude::*;
use vstd::string::StringExecFns;
use crate::{Error, Id, str_eq};
use crate::token::XmlToken;
use crate::scope::{Binding, Frame, ScopeStack, bindings_lookup, effective_default_of,
    lookup_in_bindings, resolve_in_frames};
use crate::entity::{decode, decode_chars};

verus! {

/// One attribute of the current element, still entity-encoded.
pub struct RawAttr {
    pub prefix: String,
    pub local: String,
    pub value: String,
}

/// One entered and not yet exited element.
pub struct OpenElement {
    pub prefix: String,
    pub local: String,
    pub ns: String,
    pub attrs: Vec<RawAttr>,
    pub attr_next: usize,
    pub empty: bool,
}

/// The deserializer state: the tokens, the cursor, the scope stack and
/// the stack of open elements.
pub struct Deserializer {
    pub tokens: Vec<XmlToken>,
    pub pos: usize,
    pub scope: ScopeStack,
    pub elements: Vec<OpenElement>,
}

/// Scanning the text content of an element: raw text and skipped
/// tokens accumulate until the close tag, which is not consumed. The
/// result carries the text, whether any text token was seen, and how
/// many tokens were consumed; a child element, CDATA or a start-tag
/// token is content the text path rejects.
pub open spec fn text_scan(toks: Seq<XmlToken>, acc: Seq<char>, saw: bool) -> Result<
    (Seq<char>, bool, int),
    Error,
>
    decreases toks.len(),
{
    if toks.len() == 0 {
        Err(Error::UnexpectedEndOfStream)
    } else {
        match toks[0] {
            XmlToken::Text { raw } => match text_scan(toks.drop_first(), acc + raw@, true) {
                Ok(t) => Ok((t.0, t.1, t.2 + 1)),
                Err(e) => Err(e),
            },
            XmlToken::Misc => match text_scan(toks.drop_first(), acc, saw) {
                Ok(t) => Ok((t.0, t.1, t.2 + 1)),
                Err(e) => Err(e),
            },
            XmlToken::ElemClose { prefix, local } => Ok((acc, saw, 0)),
            _ => Err(Error::UnexpectedToken),
        }
    }
}

/// The offset of the first token that is not ignorable, or the length
/// when only ignorable tokens remain.
pub open spec fn first_sig(toks: Seq<XmlToken>) -> int
    decreases toks.len(),
{
    if toks.len() == 0 {
        0
    } else if !(toks[0] is Misc) {
        0
    } else {
        1 + first_sig(toks.drop_first())
    }
}

/// Whether a token declares the default namespace (`xmlns="..."`).
pub open spec fn is_default_decl(t: XmlToken) -> bool {
    match t {
        XmlToken::Attr { prefix, local, value } => prefix@ == ""@ && local@ == "xmlns"@,
        _ => false,
    }
}

/// Whether a token declares a prefix binding (`xmlns:p="..."`).
pub open spec fn is_prefix_decl(t: XmlToken) -> bool {
    match t {
        XmlToken::Attr { prefix, local, value } => prefix@ == "xmlns"@,
        _ => false,
    }
}

/// The declared local name of an attribute token.
pub open spec fn attr_local(t: XmlToken) -> Seq<char> {
    match t {
        XmlToken::Attr { prefix, local, value } => local@,
        _ => Seq::empty(),
    }
}

/// The raw value of an attribute token.
pub open spec fn attr_raw_value(t: XmlToken) -> Seq<char> {
    match t {
        XmlToken::Attr { prefix, local, value } => value@,
        _ => Seq::empty(),
    }
}

/// How many attribute tokens stand before the start tag's end.
pub open spec fn attr_run_len(toks: Seq<XmlToken>) -> int
    decreases toks.len(),
{
    if toks.len() == 0 {
        0
    } else if toks[0] is Attr {
        1 + attr_run_len(toks.drop_first())
    } else {
        0
    }
}

/// Every namespace declaration among the attributes entity-decodes.
pub open spec fn decls_decode(attrs: Seq<XmlToken>) -> bool {
    forall|i: int|
        0 <= i < attrs.len() && (is_default_decl(#[trigger] attrs[i]) || is_prefix_decl(attrs[i]))
            ==> decode_chars(attr_raw_value(attrs[i])) is Ok
}

/// The decoded default URI the attribute run declares; the last
/// declaration wins.
pub open spec fn run_default(attrs: Seq<XmlToken>) -> Option<Seq<char>>
    decreases attrs.len(),
{
    if attrs.len() == 0 {
        None
    } else if is_default_decl(attrs.last()) {
        match decode_chars(attr_raw_value(attrs.last())) {
            Ok(p) => Some(p.0),
            Err(b) => None,
        }
    } else {
        run_default(attrs.drop_last())
    }
}

/// The decoded URI the attribute run binds to `p`; the first
/// declaration wins, matching the frame's lookup order.
pub open spec fn run_binds(attrs: Seq<XmlToken>, p: Seq<char>) -> Option<Seq<char>>
    decreases attrs.len(),
{
    if attrs.len() == 0 {
        None
    } else if is_prefix_decl(attrs[0]) && attr_local(attrs[0]) == p {
        match decode_chars(attr_raw_value(attrs[0])) {
            Ok(t) => Some(t.0),
            Err(b) => None,
        }
    } else {
        run_binds(attrs.drop_first(), p)
    }
}

/// A start tag is whole: the element start, its attribute tokens, and a
/// token that ends the tag.
pub open spec fn start_shape_ok(rem: Seq<XmlToken>) -> bool {
    &&& rem.len() > 0
    &&& rem[0] is ElemStart
    &&& 1 + attr_run_len(rem.drop_first()) < rem.len()
    &&& (rem[1 + attr_run_len(rem.drop_first())] is StartClose || rem[1 + attr_run_len(
        rem.drop_first(),
    )] is StartCloseEmpty)
}

/// The attribute tokens of the start tag at the head of `rem`.
pub open spec fn start_attrs(rem: Seq<XmlToken>) -> Seq<XmlToken> {
    rem.drop_first().take(attr_run_len(rem.drop_first()))
}

/// The prefix of the element start at the head of `rem`.
pub open spec fn start_prefix(rem: Seq<XmlToken>) -> Seq<char> {
    match rem[0] {
        XmlToken::ElemStart { prefix, local } => prefix@,
        _ => Seq::empty(),
    }
}

/// The local name of the element start at the head of `rem`.
pub open spec fn start_local(rem: Seq<XmlToken>) -> Seq<char> {
    match rem[0] {
        XmlToken::ElemStart { prefix, local } => local@,
        _ => Seq::empty(),
    }
}

/// Whether the start tag at the head of `rem` is self-closing.
pub open spec fn start_empty(rem: Seq<XmlToken>) -> bool {
    rem[1 + attr_run_len(rem.drop_first())] is StartCloseEmpty
}

/// How many tokens entering the element at the head of `rem` consumes.
pub open spec fn start_len(rem: Seq<XmlToken>) -> int {
    2 + attr_run_len(rem.drop_first())
}

/// The namespace the element start resolves to: its own default
/// declaration or the inherited default for an unprefixed name, its own
/// or an enclosing binding for a prefixed one.
pub open spec fn start_ns(prefix: Seq<char>, attrs: Seq<XmlToken>, frames: Seq<Frame>) -> Option<
    Seq<char>,
> {
    if prefix.len() == 0 {
        match run_default(attrs) {
            Some(u) => Some(u),
            None => Some(effective_default_of(frames)),
        }
    } else {
        match run_binds(attrs, prefix) {
            Some(u) => Some(u),
            None => resolve_in_frames(frames, prefix),
        }
    }
}

/// Entering the element at the head of `rem` must succeed: the tag is
/// whole, its declarations decode, and its name's prefix resolves.
pub open spec fn enterable(rem: Seq<XmlToken>, frames: Seq<Frame>) -> bool {
    &&& start_shape_ok(rem)
    &&& decls_decode(start_attrs(rem))
    &&& start_ns(start_prefix(rem), start_attrs(rem), frames) is Some
}

/// Scanning past the innermost element's remaining content at nesting
/// depth `d`: how many tokens reach just past the close tag that
/// balances it, or nothing when the input ends first.
pub open spec fn close_scan(toks: Seq<XmlToken>, d: int) -> Option<int>
    decreases toks.len(),
{
    if toks.len() == 0 {
        None
    } else {
        match toks[0] {
            XmlToken::StartClose => match close_scan(toks.drop_first(), d + 1) {
                Some(m) => Some(m + 1),
                None => None,
            },
            XmlToken::ElemClose { prefix, local } => if d == 0 {
                Some(1)
            } else {
                match close_scan(toks.drop_first(), d - 1) {
                    Some(m) => Some(m + 1),
                    None => None,
                }
            },
            _ => match close_scan(toks.drop_first(), d) {
                Some(m) => Some(m + 1),
                None => None,
            },
        }
    }
}

proof fn lemma_attr_run_len_exact(toks: Seq<XmlToken>, k: int)
    requires
        0 <= k <= toks.len(),
        forall|i: int| 0 <= i < k ==> (#[trigger] toks[i]) is Attr,
        k == toks.len() || !(toks[k] is Attr),
    ensures
        attr_run_len(toks) == k,
    decreases k,
{
    if toks.len() == 0 {
    } else if k == 0 {
    } else {
        assert(toks[0] is Attr);
        assert(forall|i: int| 0 <= i < k - 1 ==> (#[trigger] toks.drop_first()[i]) is Attr) by {
            assert(forall|i: int|
                0 <= i < k - 1 ==> toks.drop_first()[i] == toks[i + 1] && toks[i + 1] is Attr);
        }
        if k < toks.len() {
            assert(toks.drop_first()[k - 1] == toks[k]);
        }
        lemma_attr_run_len_exact(toks.drop_first(), k - 1);
    }
}

proof fn lemma_attr_run_len_nonneg(toks: Seq<XmlToken>)
    ensures
        attr_run_len(toks) >= 0,
    decreases toks.len(),
{
    if toks.len() > 0 && toks[0] is Attr {
        lemma_attr_run_len_nonneg(toks.drop_first());
    }
}

proof fn lemma_attr_run_len_min(toks: Seq<XmlToken>, m: int)
    requires
        0 <= m <= toks.len(),
        forall|i: int| 0 <= i < m ==> (#[trigger] toks[i]) is Attr,
    ensures
        attr_run_len(toks) >= m,
    decreases m,
{
    lemma_attr_run_len_nonneg(toks);
    if m > 0 {
        assert(toks[0] is Attr);
        assert(forall|i: int| 0 <= i < m - 1 ==> (#[trigger] toks.drop_first()[i]) is Attr) by {
            assert(forall|i: int|
                0 <= i < m - 1 ==> toks.drop_first()[i] == toks[i + 1] && toks[i + 1] is Attr);
        }
        lemma_attr_run_len_min(toks.drop_first(), m - 1);
        assert(attr_run_len(toks) == 1 + attr_run_len(toks.drop_first()));
    }
}

proof fn lemma_run_binds_push(attrs: Seq<XmlToken>, t: XmlToken, p: Seq<char>)
    requires
        decls_decode(attrs),
    ensures
        run_binds(attrs.push(t), p) == (match run_binds(attrs, p) {
            Some(u) => Some(u),
            None => if is_prefix_decl(t) && attr_local(t) == p {
                match decode_chars(attr_raw_value(t)) {
                    Ok(d) => Some(d.0),
                    Err(b) => None,
                }
            } else {
                None
            },
        }),
    decreases attrs.len(),
{
    let sp = attrs.push(t);
    if attrs.len() == 0 {
        assert(sp[0] == t);
        assert(sp.drop_first() =~= Seq::<XmlToken>::empty());
        assert(run_binds(Seq::<XmlToken>::empty(), p) is None);
        assert(run_binds(attrs, p) is None);
        if is_prefix_decl(t) && attr_local(t) == p {
            assert(run_binds(sp, p) == (match decode_chars(attr_raw_value(t)) {
                Ok(d) => Some(d.0),
                Err(b) => None::<Seq<char>>,
            }));
        } else {
            assert(run_binds(sp, p) == run_binds(sp.drop_first(), p));
        }
    } else {
        assert(sp[0] == attrs[0]);
        assert(sp.drop_first() =~= attrs.drop_first().push(t));
        if is_prefix_decl(attrs[0]) && attr_local(attrs[0]) == p {
            assert(decode_chars(attr_raw_value(attrs[0])) is Ok);
            assert(run_binds(sp, p) == run_binds(attrs, p));
        } else {
            assert(decls_decode(attrs.drop_first())) by {
                assert(forall|i: int|
                    0 <= i < attrs.drop_first().len() ==> #[trigger] attrs.drop_first()[i]
                        == attrs[i + 1]);
            }
            lemma_run_binds_push(attrs.drop_first(), t, p);
        }
    }
}

proof fn lemma_bindings_lookup_push(bs: Seq<Binding>, b: Binding, p: Seq<char>)
    ensures
        bindings_lookup(bs.push(b), p) == (match bindings_lookup(bs, p) {
            Some(u) => Some(u),
            None => if b.prefix@ == p {
                Some(b.uri@)
            } else {
                None
            },
        }),
    decreases bs.len(),
{
    let sp = bs.push(b);
    if bs.len() == 0 {
        assert(sp[0] == b);
        assert(sp.drop_first() =~= Seq::<Binding>::empty());
        assert(bindings_lookup(Seq::<Binding>::empty(), p) is None);
        assert(bindings_lookup(bs, p) is None);
        if b.prefix@ == p {
            assert(bindings_lookup(sp, p) == Some(b.uri@));
        } else {
            assert(bindings_lookup(sp, p) == bindings_lookup(sp.drop_first(), p));
        }
    } else {
        assert(sp[0] == bs[0]);
        assert(sp.drop_first() =~= bs.drop_first().push(b));
        if bs[0].prefix@ == p {
            assert(bindings_lookup(sp, p) == Some(bs[0].uri@));
        } else {
            lemma_bindings_lookup_push(bs.drop_first(), b, p);
            assert(bindings_lookup(sp, p) == bindings_lookup(sp.drop_first(), p));
        }
    }
}

impl Deserializer {
    /// The cursor is inside the tokens and the scope stack holds one
    /// frame per open element.
    pub open spec fn wf(self) -> bool {
        self.pos <= self.tokens@.len() && self.scope.frames@.len() == self.elements@.len()
    }

    /// How many elements are open.
    pub open spec fn depth(self) -> nat {
        self.elements@.len()
    }

    /// The tokens not yet consumed.
    pub open spec fn remaining(self) -> Seq<XmlToken> {
        self.tokens@.skip(self.pos as int)
    }

    /// A deserializer at the start of the given tokens, outside any
    /// element.
    pub fn new(tokens: Vec<XmlToken>) -> (r: Deserializer)
        ensures
            r.wf(),
            r.tokens@ == tokens@,
            r.pos == 0,
            r.depth() == 0,
    {
        Deserializer { tokens, pos: 0, scope: ScopeStack::new(), elements: Vec::new() }
    }

    fn skip_misc(&mut self)
        requires
            old(self).wf(),
        ensures
            final(self).wf(),
            final(self).tokens == old(self).tokens,
            final(self).scope == old(self).scope,
            final(self).elements == old(self).elements,
            final(self).pos >= old(self).pos,
            final(self).pos == old(self).pos + first_sig(old(self).remaining()),
            final(self).pos < final(self).tokens@.len() ==> !(final(self).tokens@[final(self).pos as int] is Misc),
    {
        let n = self.tokens.len();
        while self.pos < n
            invariant
                self.pos <= n,
                n == self.tokens@.len(),
                self.tokens == old(self).tokens,
                self.scope == old(self).scope,
                self.elements == old(self).elements,
                self.scope.frames@.len() == self.elements@.len(),
                self.pos >= old(self).pos,
                first_sig(old(self).remaining()) == (self.pos - old(self).pos) + first_sig(
                    self.remaining(),
                ),
            decreases n - self.pos,
        {
            proof {
                assert(self.remaining()[0] == self.tokens@[self.pos as int]);
                assert(self.remaining().drop_first() =~= self.tokens@.skip(self.pos + 1 as int));
            }
            let advance = match &self.tokens[self.pos] {
                XmlToken::Misc => true,
                _ => false,
            };
            if !advance {
                return ;
            }
            self.pos = self.pos + 1;
        }
        proof {
            assert(self.remaining().len() == 0);
        }
    }

    #[verifier::rlimit(100)]
    fn enter_core(&mut self, expected: Option<&Id>) -> (r: Result<(), Error>)
        requires
            old(self).wf(),
            old(self).pos < old(self).tokens@.len(),
            old(self).tokens@[old(self).pos as int] is ElemStart,
        ensures
            final(self).wf(),
            final(self).tokens == old(self).tokens,
            final(self).pos >= old(self).pos,
            r is Ok ==> final(self).elements@.drop_last() == old(self).elements@ && final(self).elements@.len() == old(self).elements@.len() + 1 && final(self).scope.frames@.drop_last() == old(self).scope.frames@ && final(self).scope.frames@.len() == old(self).scope.frames@.len() + 1 && final(self).pos > old(self).pos,
            expected matches Some(e) ==> (r is Ok ==> final(self).elements@.last().local@
                == e.name@ && final(self).elements@.last().ns@ == e.ns@),
            old(self).tokens@[old(self).pos as int] matches XmlToken::ElemStart { prefix, local }
                ==> (r is Ok ==> final(self).elements@.last().prefix@ == prefix@ && final(self).elements@.last().local@ == local@),
            r is Err ==> final(self).elements == old(self).elements && final(self).scope == old(self).scope,
            enterable(old(self).remaining(), old(self).scope.frames@) && expected is None ==> r
                is Ok,
            expected matches Some(e) ==> ((enterable(old(self).remaining(), old(self).scope.frames@)
                && e.name@ == start_local(old(self).remaining()) && start_ns(
                start_prefix(old(self).remaining()),
                start_attrs(old(self).remaining()),
                old(self).scope.frames@,
            ) == Some(e.ns@)) ==> r is Ok),
            r is Ok ==> start_shape_ok(old(self).remaining()) && final(self).pos == old(self).pos
                + start_len(old(self).remaining()) && final(self).elements@.last().empty
                == start_empty(old(self).remaining()) && (start_ns(
                start_prefix(old(self).remaining()),
                start_attrs(old(self).remaining()),
                old(self).scope.frames@,
            ) matches Some(u) && final(self).elements@.last().ns@ == u) && final(self).scope.frames@.last().default_ns@ == (match run_default(start_attrs(old(self).remaining())) {
                Some(u) => u,
                None => effective_default_of(old(self).scope.frames@),
            }),
    {
        let ghost rem = old(self).remaining();
        let ghost run = rem.drop_first();
        let ghost mut ja: int = 0;
        proof {
            assert(rem[0] == old(self).tokens@[old(self).pos as int]);
            assert(run =~= old(self).tokens@.skip(old(self).pos + 1));
            assert(run.take(0) =~= Seq::<XmlToken>::empty());
            reveal_strlit("");
            reveal_strlit("xmlns");
        }
        let (eprefix, elocal): (String, String) = match &self.tokens[self.pos] {
            XmlToken::ElemStart { prefix, local } => (prefix.clone(), local.clone()),
            _ => {
                proof {
                    assert(false);
                }
                return Err(Error::UnexpectedToken);
            },
        };
        let n = self.tokens.len();
        self.pos = self.pos + 1;
        let mut attrs: Vec<RawAttr> = Vec::new();
        let mut bindings: Vec<Binding> = Vec::new();
        let mut default_decl: Option<String> = None;
        let mut empty = false;
        let mut closed = false;
        while !closed
            invariant
                self.pos <= n,
                n == self.tokens@.len(),
                self.tokens == old(self).tokens,
                self.scope == old(self).scope,
                self.elements == old(self).elements,
                self.scope.frames@.len() == self.elements@.len(),
                self.pos > old(self).pos,
                rem == old(self).remaining(),
                run == rem.drop_first(),
                run =~= old(self).tokens@.skip(old(self).pos + 1),
                rem.len() == run.len() + 1,
                rem[0] is ElemStart,
                0 <= ja <= run.len(),
                ja == (if closed {
                    self.pos - old(self).pos - 2
                } else {
                    self.pos - old(self).pos - 1
                }),
                forall|i: int| 0 <= i < ja ==> (#[trigger] run[i]) is Attr,
                closed ==> ja < run.len() && (run[ja as int] is StartClose || run[ja as int]
                    is StartCloseEmpty) && empty == (run[ja as int] is StartCloseEmpty),
                !closed ==> !empty,
                decls_decode(run.take(ja)),
                (match default_decl {
                    Some(s) => run_default(run.take(ja)) == Some(s@),
                    None => run_default(run.take(ja)) is None,
                }),
                forall|p: Seq<char>| #[trigger] bindings_lookup(bindings@, p) == run_binds(
                    run.take(ja),
                    p,
                ),
                ""@.len() == 0,
                "xmlns"@.len() == 5,
            decreases n - self.pos,
        {
            if self.pos == n {
                proof {
                    if start_shape_ok(rem) {
                        lemma_attr_run_len_exact(run, ja);
                        assert(false);
                    }
                }
                return Err(Error::UnexpectedEndOfStream);
            }
            let ghost tcur = self.tokens@[self.pos as int];
            proof {
                assert(run[self.pos - old(self).pos - 1] == tcur);
                assert(run.take(ja + 1) =~= run.take(ja).push(tcur));
            }
            let step: u8 = match &self.tokens[self.pos] {
                XmlToken::Attr { prefix, local, value } => {
                    proof {
                        assert(tcur == XmlToken::Attr {
                            prefix: *prefix,
                            local: *local,
                            value: *value,
                        });
                        assert(attr_local(tcur) == local@);
                        assert(attr_raw_value(tcur) == value@);
                    }
                    if str_eq(prefix.as_str(), "") && str_eq(local.as_str(), "xmlns") {
                        match decode(value.as_str()) {
                            Ok(c) => {
                                proof {
                                    assert(is_default_decl(tcur));
                                    assert(!is_prefix_decl(tcur));
                                    assert(run.take(ja + 1).last() == tcur);
                                    assert(run.take(ja + 1).drop_last() =~= run.take(ja));
                                    assert forall|p: Seq<char>|
                                        #[trigger] bindings_lookup(bindings@, p) == run_binds(
                                            run.take(ja + 1),
                                            p,
                                        ) by {
                                        lemma_run_binds_push(run.take(ja), tcur, p);
                                    }
                                    ja = ja + 1;
                                }
                                default_decl = Some(c.text);
                            },
                            Err(e) => {
                                proof {
                                    if start_shape_ok(rem) && decls_decode(start_attrs(rem)) {
                                        lemma_attr_run_len_min(run, ja + 1);
                                        assert(ja < attr_run_len(rem.drop_first()));
                                        assert(start_attrs(rem)[ja as int] == tcur);
                                        assert(false);
                                    }
                                }
                                return Err(e);
                            },
                        }
                    } else if str_eq(prefix.as_str(), "xmlns") {
                        match decode(value.as_str()) {
                            Ok(c) => {
                                let b = Binding { prefix: local.clone(), uri: c.text };
                                let ghost gb = b;
                                let ghost pre_binds = bindings@;
                                bindings.push(b);
                                proof {
                                    assert(is_prefix_decl(tcur));
                                    assert(gb.prefix@ == attr_local(tcur));
                                    assert(run.take(ja + 1).last() == tcur);
                                    assert(run.take(ja + 1).drop_last() =~= run.take(ja));
                                    assert(!is_default_decl(tcur));
                                    assert(bindings@ == pre_binds.push(gb));
                                    assert forall|p: Seq<char>|
                                        #[trigger] bindings_lookup(bindings@, p) == run_binds(
                                            run.take(ja + 1),
                                            p,
                                        ) by {
                                        assert(bindings_lookup(pre_binds, p) == run_binds(
                                            run.take(ja),
                                            p,
                                        ));
                                        lemma_run_binds_push(run.take(ja), tcur, p);
                                        lemma_bindings_lookup_push(pre_binds, gb, p);
                                    }
                                    ja = ja + 1;
                                }
                            },
                            Err(e) => {
                                proof {
                                    if start_shape_ok(rem) && decls_decode(start_attrs(rem)) {
                                        lemma_attr_run_len_min(run, ja + 1);
                                        assert(ja < attr_run_len(rem.drop_first()));
                                        assert(start_attrs(rem)[ja as int] == tcur);
                                        assert(false);
                                    }
                                }
                                return Err(e);
                            },
                        }
                    } else {
                        attrs.push(
                            RawAttr {
                                prefix: prefix.clone(),
                                local: local.clone(),
                                value: value.clone(),
                            },
                        );
                        proof {
                            assert(run.take(ja + 1).last() == tcur);
                            assert(run.take(ja + 1).drop_last() =~= run.take(ja));
                            assert(!is_default_decl(tcur) && !is_prefix_decl(tcur));
                            assert forall|p: Seq<char>|
                                #[trigger] bindings_lookup(bindings@, p) == run_binds(
                                    run.take(ja + 1),
                                    p,
                                ) by {
                                lemma_run_binds_push(run.take(ja), tcur, p);
                            }
                            ja = ja + 1;
                        }
                    }
                    0
                },
                XmlToken::StartClose => { 1 },
                XmlToken::StartCloseEmpty => { 2 },
                _ => {
                    proof {
                        if start_shape_ok(rem) {
                            lemma_attr_run_len_exact(run, ja);
                            assert(rem[1 + attr_run_len(rem.drop_first())] == run[ja as int]);
                            assert(false);
                        }
                    }
                    return Err(Error::UnexpectedToken);
                },
            };
            if step == 1 {
                closed = true;
            } else if step == 2 {
                empty = true;
                closed = true;
            }
            self.pos = self.pos + 1;
        }
        proof {
            lemma_attr_run_len_exact(run, ja);
            assert(start_shape_ok(rem));
            assert(start_attrs(rem) =~= run.take(ja));
            assert(start_len(rem) == 2 + ja);
            assert(self.pos == old(self).pos + start_len(rem));
            assert(start_empty(rem) == empty);
        }
        let frame_default: String = match default_decl {
            Some(u) => u,
            None => self.scope.effective_default(),
        };
        proof {
            assert(frame_default@ == (match run_default(start_attrs(rem)) {
                Some(u) => u,
                None => effective_default_of(old(self).scope.frames@),
            }));
        }
        let frame = Frame { default_ns: frame_default, bindings };
        let ghost gframe = frame;
        let ns: String = if eprefix.as_str().is_empty() {
            proof {
                assert(start_prefix(rem).len() == 0);
                assert(start_ns(start_prefix(rem), start_attrs(rem), old(self).scope.frames@)
                    == Some(frame_default@));
            }
            frame.default_ns.clone()
        } else {
            match lookup_in_bindings(&frame.bindings, eprefix.as_str()) {
                Some(u) => {
                    proof {
                        assert(start_ns(
                            start_prefix(rem),
                            start_attrs(rem),
                            old(self).scope.frames@,
                        ) == Some(u@));
                    }
                    u
                },
                None => match self.scope.resolve_prefix_binding(eprefix.as_str()) {
                    Some(u) => {
                        proof {
                            assert(start_ns(
                                start_prefix(rem),
                                start_attrs(rem),
                                old(self).scope.frames@,
                            ) == Some(u@));
                        }
                        u
                    },
                    None => {
                        proof {
                            assert(start_ns(
                                start_prefix(rem),
                                start_attrs(rem),
                                old(self).scope.frames@,
                            ) is None);
                        }
                        return Err(Error::MissingPrefix);
                    },
                },
            }
        };
        match expected {
            Some(e) => {
                if !str_eq(elocal.as_str(), e.name.as_str()) {
                    return Err(Error::UnexpectedTag);
                }
                if !str_eq(ns.as_str(), e.ns.as_str()) {
                    return Err(Error::WrongNamespace);
                }
            },
            None => {},
        }
        let _ = self.scope.push(frame);
        self.elements.push(
            OpenElement { prefix: eprefix, local: elocal, ns, attrs, attr_next: 0, empty },
        );
        proof {
            assert(self.elements@.drop_last() =~= old(self).elements@);
            assert(self.scope.frames@.drop_last() =~= old(self).scope.frames@);
        }
        Ok(())
    }

    /// Consumes one element start with its attributes and the end of its
    /// start tag, pushes the scope frame its `xmlns` attributes declare,
    /// and records the element as open. With an expected id, a local
    /// name mismatch fails with `Error::UnexpectedTag` and a namespace
    /// mismatch with `Error::WrongNamespace`; a prefix no scope binds
    /// fails with `Error::MissingPrefix`.
    pub fn enter_element(&mut self, expected: Option<&Id>) -> (r: Result<(), Error>)
        requires
            old(self).wf(),
        ensures
            final(self).wf(),
            final(self).tokens == old(self).tokens,
            final(self).pos >= old(self).pos,
            r is Ok ==> final(self).elements@.drop_last() == old(self).elements@ && final(self).elements@.len() == old(self).elements@.len() + 1 && final(self).scope.frames@.drop_last() == old(self).scope.frames@ && final(self).scope.frames@.len() == old(self).scope.frames@.len() + 1 && final(self).pos > old(self).pos,
            expected matches Some(e) ==> (r is Ok ==> final(self).elements@.last().local@
                == e.name@ && final(self).elements@.last().ns@ == e.ns@),
            r is Err ==> final(self).elements == old(self).elements && final(self).scope == old(self).scope,
            old(self).pos + first_sig(old(self).remaining()) == old(self).tokens@.len() ==> r
                == Err::<(), Error>(Error::UnexpectedEndOfStream),
            old(self).pos + first_sig(old(self).remaining()) < old(self).tokens@.len() && !(old(self).tokens@[old(self).pos + first_sig(old(self).remaining())] is ElemStart) ==> r
                == Err::<(), Error>(Error::UnexpectedToken),
            r is Ok ==> old(self).pos + first_sig(old(self).remaining()) < old(self).tokens@.len()
                && (old(self).tokens@[old(self).pos + first_sig(old(self).remaining())] matches
            XmlToken::ElemStart { prefix, local } && final(self).elements@.last().prefix@
                == prefix@ && final(self).elements@.last().local@ == local@),
            enterable(
                old(self).remaining().skip(first_sig(old(self).remaining())),
                old(self).scope.frames@,
            ) && expected is None ==> r is Ok,
            expected matches Some(e) ==> ((enterable(
                old(self).remaining().skip(first_sig(old(self).remaining())),
                old(self).scope.frames@,
            ) && e.name@ == start_local(
                old(self).remaining().skip(first_sig(old(self).remaining())),
            ) && start_ns(
                start_prefix(old(self).remaining().skip(first_sig(old(self).remaining()))),
                start_attrs(old(self).remaining().skip(first_sig(old(self).remaining()))),
                old(self).scope.frames@,
            ) == Some(e.ns@)) ==> r is Ok),
            r is Ok ==> ({
                let rems = old(self).remaining().skip(first_sig(old(self).remaining()));
                &&& start_shape_ok(rems)
                &&& final(self).pos == old(self).pos + first_sig(old(self).remaining())
                    + start_len(rems)
                &&& final(self).elements@.last().empty == start_empty(rems)
                &&& (start_ns(start_prefix(rems), start_attrs(rems), old(self).scope.frames@)
                    matches Some(u) && final(self).elements@.last().ns@ == u)
                &&& final(self).scope.frames@.last().default_ns@ == (match run_default(
                    start_attrs(rems),
                ) {
                    Some(u) => u,
                    None => effective_default_of(old(self).scope.frames@),
                })
            }),
    {
        self.skip_misc();
        proof {
            assert(self.remaining() =~= old(self).remaining().skip(
                first_sig(old(self).remaining()),
            ));
        }
        if self.pos == self.tokens.len() {
            return Err(Error::UnexpectedEndOfStream);
        }
        let is_start = match &self.tokens[self.pos] {
            XmlToken::ElemStart { prefix, local } => true,
            _ => false,
        };
        if !is_start {
            return Err(Error::UnexpectedToken);
        }
        self.enter_core(expected)
    }

    /// The id of the innermost open element: its resolved namespace URI
    /// and its local name.
    pub fn current_id(&self) -> (r: Id)
        requires
            self.wf(),
            self.elements@.len() > 0,
        ensures
            r.ns@ == self.elements@.last().ns@,
            r.name@ == self.elements@.last().local@,
    {
        let k = self.elements.len() - 1;
        Id { ns: self.elements[k].ns.clone(), name: self.elements[k].local.clone() }
    }

    /// Yields the next attribute of the innermost open element, its
    /// prefix resolved to a namespace URI (the empty URI for an
    /// unprefixed attribute), or `None` when the attributes are
    /// exhausted. An unresolvable prefix fails with
    /// `Error::MissingPrefix`.
    pub fn next_attribute(&mut self) -> (r: Result<Option<(Id, String)>, Error>)
        requires
            old(self).wf(),
            old(self).elements@.len() > 0,
        ensures
            final(self).wf(),
            final(self).tokens == old(self).tokens,
            final(self).pos == old(self).pos,
            final(self).scope == old(self).scope,
            final(self).elements@.len() == old(self).elements@.len(),
            final(self).elements@.drop_last() == old(self).elements@.drop_last(),
            ({
                let el = old(self).elements@.last();
                if el.attr_next >= el.attrs@.len() {
                    r == Ok::<Option<(Id, String)>, Error>(None) && final(self).elements == old(self).elements
                } else {
                    let a = el.attrs@[el.attr_next as int];
                    match r {
                        Ok(o) => (o matches Some(p) && p.1@ == a.value@ && p.0.name@ == a.local@
                            && (a.prefix@.len() == 0 ==> p.0.ns@ == Seq::<char>::empty()) && (
                        a.prefix@.len() > 0 ==> (resolve_in_frames(old(self).scope.frames@, a.prefix@)
                            matches Some(u) && p.0.ns@ == u)) && final(self).elements@.last().attr_next == el.attr_next + 1),
                        Err(e) => e == Error::MissingPrefix && a.prefix@.len() > 0
                            && resolve_in_frames(old(self).scope.frames@, a.prefix@) is None,
                    }
                }
            }),
    {
        let k = self.elements.len() - 1;
        let an = self.elements[k].attr_next;
        if an >= self.elements[k].attrs.len() {
            return Ok(None);
        }
        let aprefix = self.elements[k].attrs[an].prefix.clone();
        let alocal = self.elements[k].attrs[an].local.clone();
        let avalue = self.elements[k].attrs[an].value.clone();
        let ns: String = if aprefix.as_str().is_empty() {
            String::new()
        } else {
            match self.scope.resolve_prefix_binding(aprefix.as_str()) {
                Some(u) => u,
                None => {
                    return Err(Error::MissingPrefix);
                },
            }
        };
        self.elements[k].attr_next = an + 1;
        proof {
            assert(self.elements@.drop_last() =~= old(self).elements@.drop_last());
        }
        Ok(Some((Id { ns, name: alocal }, avalue)))
    }

    /// Reads the text content of the innermost open element up to, but
    /// not including, its close tag; adjacent text runs concatenate.
    /// Yields `None` for a self-closing element or one with no text.
    /// The text stays entity-encoded; the caller chooses decode or raw.
    /// A child element or CDATA on the text path fails with
    /// `Error::UnexpectedToken`.
    pub fn take_str(&mut self) -> (r: Result<Option<String>, Error>)
        requires
            old(self).wf(),
            old(self).elements@.len() > 0,
        ensures
            final(self).wf(),
            final(self).tokens == old(self).tokens,
            final(self).scope == old(self).scope,
            final(self).elements == old(self).elements,
            final(self).pos >= old(self).pos,
            old(self).elements@.last().empty ==> r == Ok::<Option<String>, Error>(None) && final(self).pos == old(self).pos,
            !old(self).elements@.last().empty ==> match text_scan(
                old(self).remaining(),
                Seq::<char>::empty(),
                false,
            ) {
                Ok(t) => final(self).pos == old(self).pos + t.2 && (t.1 ==> (r matches Ok(o) && o
                    matches Some(x) && x@ == t.0)) && (!t.1 ==> r == Ok::<Option<String>, Error>(
                    None,
                )),
                Err(e) => r == Err::<Option<String>, Error>(e),
            },
    {
        let k = self.elements.len() - 1;
        if self.elements[k].empty {
            return Ok(None);
        }
        let ghost r0 = self.remaining();
        let ghost p0 = self.pos as int;
        let mut acc = String::new();
        let mut saw = false;
        let n = self.tokens.len();
        loop
            invariant
                self.wf(),
                n == self.tokens@.len(),
                self.tokens == old(self).tokens,
                self.scope == old(self).scope,
                self.elements == old(self).elements,
                old(self).elements@.len() > 0,
                !old(self).elements@.last().empty,
                p0 == old(self).pos,
                p0 <= self.pos as int,
                r0 == old(self).remaining(),
                text_scan(r0, Seq::<char>::empty(), false) == (match text_scan(
                    self.remaining(),
                    acc@,
                    saw,
                ) {
                    Ok(t) => Ok::<(Seq<char>, bool, int), Error>(
                        (t.0, t.1, t.2 + (self.pos as int - p0)),
                    ),
                    Err(e) => Err::<(Seq<char>, bool, int), Error>(e),
                }),
            decreases n - self.pos,
        {
            proof {
                if self.pos < n {
                    assert(self.remaining()[0] == self.tokens@[self.pos as int]);
                    assert(self.remaining().drop_first() =~= self.tokens@.skip(self.pos + 1 as int));
                }
            }
            if self.pos == n {
                proof {
                    assert(self.remaining().len() == 0);
                }
                return Err(Error::UnexpectedEndOfStream);
            }
            let step: u8 = match &self.tokens[self.pos] {
                XmlToken::Text { raw } => {
                    acc.append(raw.as_str());
                    saw = true;
                    0
                },
                XmlToken::Misc => { 0 },
                XmlToken::ElemClose { prefix, local } => { 1 },
                _ => {
                    return Err(Error::UnexpectedToken);
                },
            };
            if step == 1 {
                if saw {
                    return Ok(Some(acc));
                } else {
                    return Ok(None);
                }
            }
            self.pos = self.pos + 1;
        }
    }

    /// Consumes the close tag of the innermost open element (nothing for
    /// a self-closing one), checks its name against the start tag, and
    /// pops the element with its scope frame. A mismatched or missing
    /// close tag fails with `Error::UnexpectedToken`.
    pub fn exit_element(&mut self) -> (r: Result<(), Error>)
        requires
            old(self).wf(),
            old(self).elements@.len() > 0,
        ensures
            final(self).wf(),
            final(self).tokens == old(self).tokens,
            final(self).pos >= old(self).pos,
            r is Ok ==> final(self).elements@ == old(self).elements@.drop_last() && final(self).scope.frames@ == old(self).scope.frames@.drop_last() && final(self).pos >= old(self).pos,
            r is Err ==> final(self).elements == old(self).elements && final(self).scope == old(self).scope,
            old(self).elements@.last().empty ==> r is Ok && final(self).pos == old(self).pos,
            !old(self).elements@.last().empty && old(self).pos + first_sig(old(self).remaining())
                < old(self).tokens@.len() && (old(self).tokens@[old(self).pos + first_sig(
                old(self).remaining(),
            )] matches XmlToken::ElemClose { prefix, local } && prefix@ == old(self).elements@.last().prefix@ && local@ == old(self).elements@.last().local@) ==> r is Ok,
            r is Ok && !old(self).elements@.last().empty ==> final(self).pos == old(self).pos
                + first_sig(old(self).remaining()) + 1,
    {
        let k = self.elements.len() - 1;
        if self.elements[k].empty {
            self.scope.pop(k);
            let _ = self.elements.pop();
            proof {
                assert(self.elements@ =~= old(self).elements@.drop_last());
            }
            return Ok(());
        }
        self.skip_misc();
        if self.pos == self.tokens.len() {
            return Err(Error::UnexpectedEndOfStream);
        }
        let matched = match &self.tokens[self.pos] {
            XmlToken::ElemClose { prefix, local } => str_eq(
                prefix.as_str(),
                self.elements[k].prefix.as_str(),
            ) && str_eq(local.as_str(), self.elements[k].local.as_str()),
            _ => false,
        };
        if !matched {
            return Err(Error::UnexpectedToken);
        }
        self.pos = self.pos + 1;
        self.scope.pop(k);
        let _ = self.elements.pop();
        proof {
            assert(self.elements@ =~= old(self).elements@.drop_last());
        }
        Ok(())
    }

    /// Consumes everything left of the innermost open element, its
    /// balanced subtree and its close tag included, and pops the element
    /// with its scope frame: after the call the deserializer stands
    /// behind the skipped element, ready for its next sibling.
    pub fn skip_element(&mut self) -> (r: Result<(), Error>)
        requires
            old(self).wf(),
            old(self).elements@.len() > 0,
        ensures
            final(self).wf(),
            final(self).tokens == old(self).tokens,
            final(self).pos >= old(self).pos,
            r is Ok ==> final(self).elements@ == old(self).elements@.drop_last() && final(self).scope.frames@ == old(self).scope.frames@.drop_last() && final(self).pos >= old(self).pos,
            r is Ok && !old(self).elements@.last().empty ==> final(self).pos > old(self).pos && (
            final(self).tokens@[final(self).pos - 1] matches XmlToken::ElemClose { prefix, local }),
            old(self).elements@.last().empty ==> r is Ok && final(self).pos == old(self).pos,
            !old(self).elements@.last().empty ==> match close_scan(old(self).remaining(), 0) {
                Some(m) => r is Ok && final(self).pos == old(self).pos + m,
                None => r == Err::<(), Error>(Error::UnexpectedEndOfStream),
            },
    {
        let k = self.elements.len() - 1;
        if self.elements[k].empty {
            self.scope.pop(k);
            let _ = self.elements.pop();
            proof {
                assert(self.elements@ =~= old(self).elements@.drop_last());
            }
            return Ok(());
        }
        let ghost r0 = self.remaining();
        let n = self.tokens.len();
        let mut d: usize = 0;
        loop
            invariant
                self.wf(),
                n == self.tokens@.len(),
                self.tokens == old(self).tokens,
                self.scope == old(self).scope,
                self.elements == old(self).elements,
                old(self).elements@.len() > 0,
                !old(self).elements@.last().empty,
                self.scope.frames@.len() == self.elements@.len(),
                k + 1 == self.elements@.len(),
                self.pos >= old(self).pos,
                d <= self.pos,
                r0 == old(self).remaining(),
                close_scan(r0, 0) == (match close_scan(self.remaining(), d as int) {
                    Some(m) => Some(m + (self.pos - old(self).pos)),
                    None => None::<int>,
                }),
            decreases n - self.pos,
        {
            proof {
                if self.pos < n {
                    assert(self.remaining()[0] == self.tokens@[self.pos as int]);
                    assert(self.remaining().drop_first() =~= self.tokens@.skip(self.pos + 1 as int));
                }
            }
            if self.pos == n {
                proof {
                    assert(self.remaining().len() == 0);
                }
                return Err(Error::UnexpectedEndOfStream);
            }
            let step: u8 = match &self.tokens[self.pos] {
                XmlToken::StartClose => 1,
                XmlToken::ElemClose { prefix, local } => 2,
                _ => 0,
            };
            if step == 1 {
                proof {
                    assert(close_scan(self.remaining(), d as int) == (match close_scan(
                        self.tokens@.skip(self.pos + 1 as int),
                        d + 1 as int,
                    ) {
                        Some(m) => Some(m + 1),
                        None => None::<int>,
                    }));
                }
                d = d + 1;
            } else if step == 2 {
                if d == 0 {
                    proof {
                        assert(close_scan(self.remaining(), 0) == Some(1int));
                    }
                    self.pos = self.pos + 1;
                    self.scope.pop(k);
                    let _ = self.elements.pop();
                    proof {
                        assert(self.elements@ =~= old(self).elements@.drop_last());
                    }
                    return Ok(());
                }
                proof {
                    assert(close_scan(self.remaining(), d as int) == (match close_scan(
                        self.tokens@.skip(self.pos + 1 as int),
                        d - 1 as int,
                    ) {
                        Some(m) => Some(m + 1),
                        None => None::<int>,
                    }));
                }
                d = d - 1;
            } else {
                proof {
                    assert(close_scan(self.remaining(), d as int) == (match close_scan(
                        self.tokens@.skip(self.pos + 1 as int),
                        d as int,
                    ) {
                        Some(m) => Some(m + 1),
                        None => None::<int>,
                    }));
                }
            }
            self.pos = self.pos + 1;
        }
    }

    /// The local name of the next element start, without consuming it:
    /// the peek that forwarding dispatch selects a variant by. Skips
    /// ignorable tokens; fails with `Error::UnexpectedToken` when the
    /// next significant token starts no element.
    pub fn peek_element_name(&mut self) -> (r: Result<String, Error>)
        requires
            old(self).wf(),
        ensures
            final(self).wf(),
            final(self).tokens == old(self).tokens,
            final(self).scope == old(self).scope,
            final(self).elements == old(self).elements,
            final(self).pos >= old(self).pos,
            final(self).pos == old(self).pos + first_sig(old(self).remaining()),
            r matches Ok(name) ==> final(self).pos < final(self).tokens@.len() && (final(self).tokens@[final(self).pos as int] matches XmlToken::ElemStart { prefix, local }
                && name@ == local@),
            old(self).pos + first_sig(old(self).remaining()) == old(self).tokens@.len() ==> r
                == Err::<String, Error>(Error::UnexpectedEndOfStream),
            old(self).pos + first_sig(old(self).remaining()) < old(self).tokens@.len() && (old(self).tokens@[old(self).pos + first_sig(old(self).remaining())] is ElemStart) ==> r is Ok,
            old(self).pos + first_sig(old(self).remaining()) < old(self).tokens@.len() && !(old(self).tokens@[old(self).pos + first_sig(old(self).remaining())] is ElemStart) ==> r
                == Err::<String, Error>(Error::UnexpectedToken),
    {
        self.skip_misc();
        if self.pos == self.tokens.len() {
            return Err(Error::UnexpectedEndOfStream);
        }
        match &self.tokens[self.pos] {
            XmlToken::ElemStart { prefix, local } => Ok(local.clone()),
            _ => Err(Error::UnexpectedToken),
        }
    }

    /// Advances to the next child of the innermost open element. Enters
    /// the child and yields `true`, or yields `false` at the parent's
    /// close tag (which stays for `exit_element`). Text among the
    /// children (mixed content) fails with `Error::UnexpectedToken`.
    pub fn next_child(&mut self) -> (r: Result<bool, Error>)
        requires
            old(self).wf(),
            old(self).elements@.len() > 0,
        ensures
            final(self).wf(),
            final(self).tokens == old(self).tokens,
            final(self).pos >= old(self).pos,
            r == Ok::<bool, Error>(true) ==> final(self).elements@.drop_last() == old(self).elements@ && final(self).elements@.len() == old(self).elements@.len() + 1 && final(self).scope.frames@.drop_last() == old(self).scope.frames@ && final(self).scope.frames@.len() == old(self).scope.frames@.len() + 1 && final(self).pos > old(self).pos,
            r == Ok::<bool, Error>(false) ==> final(self).elements == old(self).elements && final(self).scope == old(self).scope && final(self).pos >= old(self).pos,
            r is Err ==> final(self).elements == old(self).elements && final(self).scope == old(self).scope,
            r == Ok::<bool, Error>(true) ==> old(self).pos + first_sig(old(self).remaining())
                < old(self).tokens@.len() && (old(self).tokens@[old(self).pos + first_sig(
                old(self).remaining(),
            )] matches XmlToken::ElemStart { prefix, local } && final(self).elements@.last().prefix@
                == prefix@ && final(self).elements@.last().local@ == local@),
            r == Ok::<bool, Error>(false) && !old(self).elements@.last().empty ==> old(self).pos
                + first_sig(old(self).remaining()) < old(self).tokens@.len() && (old(self).tokens@[old(self).pos + first_sig(old(self).remaining())] matches XmlToken::ElemClose {
                prefix,
                local,
            }),
            old(self).elements@.last().empty ==> r == Ok::<bool, Error>(false) && final(self).pos
                == old(self).pos,
            !old(self).elements@.last().empty && old(self).pos + first_sig(old(self).remaining())
                < old(self).tokens@.len() && (old(self).tokens@[old(self).pos + first_sig(
                old(self).remaining(),
            )] is ElemClose) ==> r == Ok::<bool, Error>(false) && final(self).pos == old(self).pos
                + first_sig(old(self).remaining()),
            !old(self).elements@.last().empty && enterable(
                old(self).remaining().skip(first_sig(old(self).remaining())),
                old(self).scope.frames@,
            ) ==> r == Ok::<bool, Error>(true),
            r == Ok::<bool, Error>(true) ==> ({
                let rems = old(self).remaining().skip(first_sig(old(self).remaining()));
                &&& start_shape_ok(rems)
                &&& final(self).pos == old(self).pos + first_sig(old(self).remaining())
                    + start_len(rems)
                &&& final(self).elements@.last().empty == start_empty(rems)
                &&& (start_ns(start_prefix(rems), start_attrs(rems), old(self).scope.frames@)
                    matches Some(u) && final(self).elements@.last().ns@ == u)
                &&& final(self).scope.frames@.last().default_ns@ == (match run_default(
                    start_attrs(rems),
                ) {
                    Some(u) => u,
                    None => effective_default_of(old(self).scope.frames@),
                })
            }),
    {
        let k = self.elements.len() - 1;
        if self.elements[k].empty {
            return Ok(false);
        }
        self.skip_misc();
        proof {
            assert(self.remaining() =~= old(self).remaining().skip(
                first_sig(old(self).remaining()),
            ));
        }
        if self.pos == self.tokens.len() {
            return Err(Error::UnexpectedEndOfStream);
        }
        let step: u8 = match &self.tokens[self.pos] {
            XmlToken::ElemStart { prefix, local } => 1,
            XmlToken::ElemClose { prefix, local } => 2,
            _ => 0,
        };
        if step == 1 {
            match self.enter_core(None) {
                Ok(u) => Ok(true),
                Err(e) => Err(e),
            }
        } else if step == 2 {
            Ok(false)
        } else {
            Err(Error::UnexpectedToken)
        }
    }
}

} // verus!
