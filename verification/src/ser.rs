//! The serializer core: writes elements, attributes, namespace
//! declarations and text to an owned text sink, tracks whether a start
//! tag is still open, and applies the namespace scope stack.
//!
//! Every write method states the exact text it appends. Two method
//! families coexist: the scope-stack interface (`write_start`,
//! `write_attr`, `end_start`, `write_str`, `write_close`, `push`, `pop`)
//! that the record bindings drive, and the field-context interface
//! (`set_field_context`, `add_open_tag`, `add_close_tag`, the attribute
//! buffer and the parent-default-namespace pair) kept for callers that
//! stage one field at a time.

use vstd::prelude::*;
use vstd::string::StringExecFns;
use crate::{Error, Id, str_eq};
use crate::entity::{encode, encode_chars};
use crate::scope::{Binding, Frame, ScopeStack, effective_default_of, prefix_for_uri};

verus! {

/// How a staged field reaches the document: under a declared prefix,
/// under a namespace URI of its own, or as an attribute.
pub enum FieldAttribute {
    Prefix(String),
    Namespace(String),
    Attribute,
}

/// The name of the field being staged and how it reaches the document.
pub struct FieldContext {
    pub name: String,
    pub attribute: Option<FieldAttribute>,
}

/// How an element is named: after the field that holds it, or by a
/// fixed name.
pub enum TagName {
    FieldName,
    Custom(&'static str),
}

/// The serializer state: the text sink, the namespace scope stack, the
/// open-start-tag flag, and the staging slots of the field-context
/// interface.
pub struct Serializer {
    pub output: String,
    pub scope: ScopeStack,
    pub start_open: bool,
    pub parent_default_namespace: String,
    pub parent_default_namespace_to_revert: String,
    pub current_attributes: String,
    pub next_field_context: Option<FieldContext>,
}

/// The view of an optional string argument.
pub open spec fn opt_view(p: Option<&str>) -> Option<Seq<char>> {
    match p {
        Some(s) => Some(s@),
        None => None,
    }
}

/// `prefix:` when there is a prefix, nothing otherwise.
pub open spec fn opt_prefix_text(p: Option<Seq<char>>) -> Seq<char> {
    match p {
        Some(s) => s + seq![':'],
        None => Seq::empty(),
    }
}

/// ` xmlns="uri"`.
pub open spec fn xmlns_decl_text(u: Seq<char>) -> Seq<char> {
    seq![' ', 'x', 'm', 'l', 'n', 's', '=', '"'] + u + seq!['"']
}

/// ` xmlns:prefix="uri"`.
pub open spec fn prefix_decl_text(p: Seq<char>, u: Seq<char>) -> Seq<char> {
    seq![' ', 'x', 'm', 'l', 'n', 's', ':'] + p + seq!['=', '"'] + u + seq!['"']
}

/// The text of a start tag up to (not including) its closing `>`.
pub open spec fn start_tag_text(
    p: Option<Seq<char>>,
    local: Seq<char>,
    xmlns: Option<Seq<char>>,
) -> Seq<char> {
    seq!['<'] + opt_prefix_text(p) + local + (match xmlns {
        Some(u) => xmlns_decl_text(u),
        None => Seq::empty(),
    })
}

/// Which default-namespace declaration a start tag carries: the declared
/// URI exactly when one is given and differs from the effective default.
pub open spec fn start_decl(d: Option<Seq<char>>, eff: Seq<char>) -> Option<Seq<char>> {
    match d {
        Some(u) => if u != eff {
            Some(u)
        } else {
            None
        },
        None => None,
    }
}

/// The text of a close tag.
pub open spec fn close_tag_text(p: Option<Seq<char>>, local: Seq<char>) -> Seq<char> {
    seq!['<', '/'] + opt_prefix_text(p) + local + seq!['>']
}

/// The text of one attribute, its value entity-encoded.
pub open spec fn attr_text(local: Seq<char>, value: Seq<char>) -> Seq<char> {
    seq![' '] + local + seq!['=', '"'] + encode_chars(value) + seq!['"']
}

/// The declarations a pushed frame emits: one per binding whose URI no
/// outer frame already declares, in insertion order.
pub open spec fn new_decls_text(outer: Seq<Frame>, bs: Seq<Binding>) -> Seq<char>
    decreases bs.len(),
{
    if bs.len() == 0 {
        Seq::empty()
    } else {
        (if prefix_for_uri(outer, bs[0].uri@) is Some {
            Seq::empty()
        } else {
            prefix_decl_text(bs[0].prefix@, bs[0].uri@)
        }) + new_decls_text(outer, bs.drop_first())
    }
}

/// The text the field-context interface emits when a staged field's
/// start tag is written.
pub open spec fn open_tag_text(fc: FieldContext, parent_default: Seq<char>) -> Seq<char> {
    match fc.attribute {
        Some(FieldAttribute::Prefix(p)) => seq!['<'] + p@ + seq![':'] + fc.name@ + seq!['>'],
        Some(FieldAttribute::Namespace(ns)) => if parent_default != ns@ {
            seq!['<'] + fc.name@ + xmlns_decl_text(ns@) + seq!['>']
        } else {
            seq!['<'] + fc.name@ + seq!['>']
        },
        _ => seq!['<'] + fc.name@ + seq!['>'],
    }
}

/// The text the field-context interface emits when a staged field's
/// close tag is written.
pub open spec fn field_close_text(fc: FieldContext) -> Seq<char> {
    match fc.attribute {
        Some(FieldAttribute::Prefix(p)) => seq!['<', '/'] + p@ + seq![':'] + fc.name@ + seq!['>'],
        _ => seq!['<', '/'] + fc.name@ + seq!['>'],
    }
}

/// The text a scalar field wrapped by its parent produces: the wrapper
/// element named per the emission policy (no prefix when the URI is the
/// effective default, an outer-declared prefix when one resolves, an
/// inline declaration otherwise), with the entity-encoded value inside.
pub open spec fn scalar_field_text(id: Id, frames: Seq<Frame>, value: Seq<char>) -> Seq<char> {
    let eff = effective_default_of(frames);
    if id.ns@ == eff {
        start_tag_text(None, id.name@, None) + seq!['>'] + encode_chars(value) + close_tag_text(
            None,
            id.name@,
        )
    } else {
        match prefix_for_uri(frames, id.ns@) {
            Some(p) => start_tag_text(Some(p), id.name@, None) + seq!['>'] + encode_chars(value)
                + close_tag_text(Some(p), id.name@),
            None => start_tag_text(None, id.name@, Some(id.ns@)) + seq!['>'] + encode_chars(value)
                + close_tag_text(None, id.name@),
        }
    }
}

proof fn lemma_decls_push(outer: Seq<Frame>, bs: Seq<Binding>, b: Binding)
    ensures
        new_decls_text(outer, bs.push(b)) == new_decls_text(outer, bs) + (if prefix_for_uri(
            outer,
            b.uri@,
        ) is Some {
            Seq::<char>::empty()
        } else {
            prefix_decl_text(b.prefix@, b.uri@)
        }),
    decreases bs.len(),
{
    let piece = if prefix_for_uri(outer, b.uri@) is Some {
        Seq::<char>::empty()
    } else {
        prefix_decl_text(b.prefix@, b.uri@)
    };
    let sp = bs.push(b);
    if bs.len() == 0 {
        assert(sp[0] == b);
        assert(sp.drop_first() =~= Seq::<Binding>::empty());
        assert(new_decls_text(outer, Seq::<Binding>::empty()) == Seq::<char>::empty());
        assert(new_decls_text(outer, sp) == piece + Seq::<char>::empty());
        assert(piece + Seq::<char>::empty() =~= piece);
        assert(Seq::<char>::empty() + piece =~= piece);
    } else {
        assert(sp[0] == bs[0]);
        assert(sp.drop_first() =~= bs.drop_first().push(b));
        lemma_decls_push(outer, bs.drop_first(), b);
        let head = if prefix_for_uri(outer, bs[0].uri@) is Some {
            Seq::<char>::empty()
        } else {
            prefix_decl_text(bs[0].prefix@, bs[0].uri@)
        };
        assert(new_decls_text(outer, sp) == head + (new_decls_text(outer, bs.drop_first())
            + piece));
        assert(head + (new_decls_text(outer, bs.drop_first()) + piece) =~= (head + new_decls_text(
            outer,
            bs.drop_first(),
        )) + piece);
    }
}

/// Law: an element whose declared default namespace equals the effective
/// default in force gets no `xmlns` declaration: its start tag is the
/// same text as one declaring nothing.
pub proof fn lemma_no_redundant_xmlns(
    p: Option<Seq<char>>,
    local: Seq<char>,
    d: Seq<char>,
    eff: Seq<char>,
)
    requires
        d == eff,
    ensures
        start_tag_text(p, local, start_decl(Some(d), eff)) == start_tag_text(p, local, None),
{
}

impl Serializer {
    /// Everything except the output text is unchanged.
    pub open spec fn same_but_output(pre: Serializer, post: Serializer) -> bool {
        &&& post.scope == pre.scope
        &&& post.start_open == pre.start_open
        &&& post.parent_default_namespace == pre.parent_default_namespace
        &&& post.parent_default_namespace_to_revert == pre.parent_default_namespace_to_revert
        &&& post.current_attributes == pre.current_attributes
        &&& post.next_field_context == pre.next_field_context
    }

    /// Everything except the output text and the open-start-tag flag is
    /// unchanged.
    pub open spec fn same_but_output_open(pre: Serializer, post: Serializer) -> bool {
        &&& post.scope == pre.scope
        &&& post.parent_default_namespace == pre.parent_default_namespace
        &&& post.parent_default_namespace_to_revert == pre.parent_default_namespace_to_revert
        &&& post.current_attributes == pre.current_attributes
        &&& post.next_field_context == pre.next_field_context
    }

    /// A fresh serializer: empty output, no frames, no start tag open,
    /// empty staging slots.
    pub fn new() -> (r: Serializer)
        ensures
            r.output@ == Seq::<char>::empty(),
            r.scope.frames@.len() == 0,
            !r.start_open,
            r.parent_default_namespace@ == Seq::<char>::empty(),
            r.parent_default_namespace_to_revert@ == Seq::<char>::empty(),
            r.current_attributes@ == Seq::<char>::empty(),
            r.next_field_context is None,
    {
        Serializer {
            output: String::new(),
            scope: ScopeStack::new(),
            start_open: false,
            parent_default_namespace: String::new(),
            parent_default_namespace_to_revert: String::new(),
            current_attributes: String::new(),
            next_field_context: None,
        }
    }

    /// The effective default namespace URI at the current scope.
    pub fn default_ns(&self) -> (r: String)
        ensures
            r@ == effective_default_of(self.scope.frames@),
    {
        self.scope.effective_default()
    }

    /// A prefix under which `ns` is declared in the current scope, the
    /// outermost declaration first.
    pub fn prefix(&self, ns: &str) -> (r: Option<String>)
        ensures
            match prefix_for_uri(self.scope.frames@, ns@) {
                Some(p) => r matches Some(s) && s@ == p,
                None => r is None,
            },
    {
        self.scope.resolve_prefix_from_uri(ns)
    }

    /// Emits `<`, the prefix and local name, and, exactly when a default
    /// namespace is declared that differs from the effective one, an
    /// inline `xmlns` declaration. Leaves the start tag open. Fails with
    /// `Error::UnexpectedState` when a start tag is already open.
    pub fn write_start(&mut self, prefix: Option<&str>, local: &str, default_ns: Option<&str>)
        -> (r: Result<(), Error>)
        ensures
            old(self).start_open ==> r == Err::<(), Error>(Error::UnexpectedState) && *final(self)
                == *old(self),
            !old(self).start_open ==> r is Ok && final(self).output@ == old(self).output@
                + start_tag_text(
                opt_view(prefix),
                local@,
                start_decl(opt_view(default_ns), effective_default_of(old(self).scope.frames@)),
            ) && final(self).start_open && Self::same_but_output_open(*old(self), *final(self)),
    {
        if self.start_open {
            return Err(Error::UnexpectedState);
        }
        let ghost pre = self.output@;
        self.output.append("<");
        match prefix {
            Some(p) => {
                self.output.append(p);
                self.output.append(":");
            },
            None => {},
        }
        self.output.append(local);
        match default_ns {
            Some(u) => {
                let eff = self.scope.effective_default();
                if !str_eq(u, eff.as_str()) {
                    self.output.append(" xmlns=\"");
                    self.output.append(u);
                    self.output.append("\"");
                }
            },
            None => {},
        }
        self.start_open = true;
        proof {
            reveal_strlit("<");
            reveal_strlit(":");
            reveal_strlit(" xmlns=\"");
            reveal_strlit("\"");
            assert("<"@ =~= seq!['<']);
            assert(":"@ =~= seq![':']);
            assert(" xmlns=\""@ =~= seq![' ', 'x', 'm', 'l', 'n', 's', '=', '"']);
            assert("\""@ =~= seq!['"']);
            assert(self.output@ =~= pre + start_tag_text(
                opt_view(prefix),
                local@,
                start_decl(opt_view(default_ns), effective_default_of(self.scope.frames@)),
            ));
        }
        Ok(())
    }

    /// Emits ` local="value"` with the value entity-encoded. Requires an
    /// open start tag; fails with `Error::UnexpectedState` otherwise.
    pub fn write_attr(&mut self, local: &str, value: &str) -> (r: Result<(), Error>)
        ensures
            !old(self).start_open ==> r == Err::<(), Error>(Error::UnexpectedState) && *final(self)
                == *old(self),
            old(self).start_open ==> r is Ok && final(self).output@ == old(self).output@
                + attr_text(local@, value@) && Self::same_but_output(*old(self), *final(self)),
    {
        if !self.start_open {
            return Err(Error::UnexpectedState);
        }
        let ghost pre = self.output@;
        let enc = match encode(value) {
            Ok(c) => c,
            Err(e) => {
                return Err(e);
            },
        };
        self.output.append(" ");
        self.output.append(local);
        self.output.append("=\"");
        self.output.append(enc.text.as_str());
        self.output.append("\"");
        proof {
            reveal_strlit(" ");
            reveal_strlit("=\"");
            reveal_strlit("\"");
            assert(" "@ =~= seq![' ']);
            assert("=\""@ =~= seq!['=', '"']);
            assert("\""@ =~= seq!['"']);
            assert(self.output@ =~= pre + attr_text(local@, value@));
        }
        Ok(())
    }

    /// Emits the `>` of the open start tag and closes it. Fails with
    /// `Error::UnexpectedState` when no start tag is open.
    pub fn end_start(&mut self) -> (r: Result<(), Error>)
        ensures
            !old(self).start_open ==> r == Err::<(), Error>(Error::UnexpectedState) && *final(self)
                == *old(self),
            old(self).start_open ==> r is Ok && final(self).output@ == old(self).output@
                + seq!['>'] && !final(self).start_open && Self::same_but_output_open(
                *old(self),
                *final(self),
            ),
    {
        if !self.start_open {
            return Err(Error::UnexpectedState);
        }
        let ghost pre = self.output@;
        self.output.append(">");
        self.start_open = false;
        proof {
            reveal_strlit(">");
            assert(">"@ =~= seq!['>']);
            assert(self.output@ =~= pre + seq!['>']);
        }
        Ok(())
    }

    /// Entity-encodes `value` and writes it as text content. Fails with
    /// `Error::UnexpectedState` while a start tag is open.
    pub fn write_str(&mut self, value: &str) -> (r: Result<(), Error>)
        ensures
            old(self).start_open ==> r == Err::<(), Error>(Error::UnexpectedState) && *final(self)
                == *old(self),
            !old(self).start_open ==> r is Ok && final(self).output@ == old(self).output@
                + encode_chars(value@) && Self::same_but_output(*old(self), *final(self)),
    {
        if self.start_open {
            return Err(Error::UnexpectedState);
        }
        let enc = match encode(value) {
            Ok(c) => c,
            Err(e) => {
                return Err(e);
            },
        };
        self.output.append(enc.text.as_str());
        Ok(())
    }

    /// Emits `</prefix:local>` or `</local>`. Does not check nesting:
    /// balancing is the caller's duty. Fails with
    /// `Error::UnexpectedState` while a start tag is open.
    pub fn write_close(&mut self, prefix: Option<&str>, local: &str) -> (r: Result<(), Error>)
        ensures
            old(self).start_open ==> r == Err::<(), Error>(Error::UnexpectedState) && *final(self)
                == *old(self),
            !old(self).start_open ==> r is Ok && final(self).output@ == old(self).output@
                + close_tag_text(opt_view(prefix), local@) && Self::same_but_output(
                *old(self),
                *final(self),
            ),
    {
        if self.start_open {
            return Err(Error::UnexpectedState);
        }
        let ghost pre = self.output@;
        self.output.append("</");
        match prefix {
            Some(p) => {
                self.output.append(p);
                self.output.append(":");
            },
            None => {},
        }
        self.output.append(local);
        self.output.append(">");
        proof {
            reveal_strlit("</");
            reveal_strlit(":");
            reveal_strlit(">");
            assert("</"@ =~= seq!['<', '/']);
            assert(":"@ =~= seq![':']);
            assert(">"@ =~= seq!['>']);
            assert(self.output@ =~= pre + close_tag_text(opt_view(prefix), local@));
        }
        Ok(())
    }

    /// Installs `frame` on the scope stack and emits an
    /// ` xmlns:prefix="uri"` declaration for each binding whose URI no
    /// outer frame already declares, in insertion order. Requires an open
    /// start tag (declarations belong right after the element name);
    /// fails with `Error::UnexpectedState` otherwise. Returns the restore
    /// token for the matching `pop`.
    pub fn push(&mut self, frame: Frame) -> (r: Result<usize, Error>)
        ensures
            !old(self).start_open ==> r == Err::<usize, Error>(Error::UnexpectedState) && *final(self) == *old(self),
            old(self).start_open ==> (r matches Ok(tok) && tok == old(self).scope.frames@.len()
                && final(self).scope.frames@ == old(self).scope.frames@.push(frame) && final(self).output@ == old(self).output@ + new_decls_text(
                old(self).scope.frames@,
                frame.bindings@,
            ) && final(self).start_open == old(self).start_open && final(self).parent_default_namespace == old(self).parent_default_namespace && final(self).parent_default_namespace_to_revert == old(self).parent_default_namespace_to_revert
                && final(self).current_attributes == old(self).current_attributes && final(self).next_field_context == old(self).next_field_context),
    {
        if !self.start_open {
            return Err(Error::UnexpectedState);
        }
        let ghost pre = self.output@;
        let ghost outer = self.scope.frames@;
        let n = frame.bindings.len();
        let mut k: usize = 0;
        proof {
            reveal_strlit(" xmlns:");
            reveal_strlit("=\"");
            reveal_strlit("\"");
            assert(" xmlns:"@ =~= seq![' ', 'x', 'm', 'l', 'n', 's', ':']);
            assert("=\""@ =~= seq!['=', '"']);
            assert("\""@ =~= seq!['"']);
            assert(frame.bindings@.take(0) =~= Seq::<Binding>::empty());
            assert(pre + Seq::<char>::empty() =~= pre);
        }
        while k < n
            invariant
                k <= n,
                n == frame.bindings@.len(),
                outer == self.scope.frames@,
                self.start_open,
                self.output@ == pre + new_decls_text(outer, frame.bindings@.take(k as int)),
                " xmlns:"@ =~= seq![' ', 'x', 'm', 'l', 'n', 's', ':'],
                "=\""@ =~= seq!['=', '"'],
                "\""@ =~= seq!['"'],
                Self::same_but_output(*old(self), *self),
            decreases n - k,
        {
            let b = &frame.bindings[k];
            proof {
                assert(frame.bindings@.take(k + 1 as int) =~= frame.bindings@.take(k as int).push(
                    frame.bindings@[k as int],
                ));
                lemma_decls_push(outer, frame.bindings@.take(k as int), frame.bindings@[k as int]);
            }
            match self.scope.resolve_prefix_from_uri(b.uri.as_str()) {
                Some(existing) => {
                    proof {
                        assert(self.output@ =~= pre + new_decls_text(
                            outer,
                            frame.bindings@.take(k + 1 as int),
                        ));
                    }
                },
                None => {
                    self.output.append(" xmlns:");
                    self.output.append(b.prefix.as_str());
                    self.output.append("=\"");
                    self.output.append(b.uri.as_str());
                    self.output.append("\"");
                    proof {
                        assert(self.output@ =~= pre + new_decls_text(
                            outer,
                            frame.bindings@.take(k + 1 as int),
                        ));
                    }
                },
            }
            k = k + 1;
        }
        proof {
            assert(frame.bindings@.take(n as int) =~= frame.bindings@);
        }
        let tok = self.scope.push(frame);
        Ok(tok)
    }

    /// Restores the scope to the state captured by `tok`, which must be
    /// the token of the matching `push` (LIFO discipline; a mismatched
    /// pop is a programmer error, not a data error). Emits nothing.
    pub fn pop(&mut self, tok: usize)
        requires
            tok + 1 == old(self).scope.frames@.len(),
        ensures
            final(self).scope.frames@ == old(self).scope.frames@.drop_last(),
            final(self).output == old(self).output,
            final(self).start_open == old(self).start_open,
            final(self).parent_default_namespace == old(self).parent_default_namespace,
            final(self).parent_default_namespace_to_revert == old(self).parent_default_namespace_to_revert,
            final(self).current_attributes == old(self).current_attributes,
            final(self).next_field_context == old(self).next_field_context,
    {
        self.scope.pop(tok);
    }

    /// Flushes the staged attribute text into the output and clears the
    /// buffer.
    pub fn consume_current_attributes(&mut self) -> (r: Result<(), Error>)
        ensures
            r is Ok,
            final(self).output@ == old(self).output@ + old(self).current_attributes@,
            final(self).current_attributes@ == Seq::<char>::empty(),
            final(self).scope == old(self).scope,
            final(self).start_open == old(self).start_open,
            final(self).parent_default_namespace == old(self).parent_default_namespace,
            final(self).parent_default_namespace_to_revert == old(self).parent_default_namespace_to_revert,
            final(self).next_field_context == old(self).next_field_context,
    {
        let staged = self.current_attributes.clone();
        self.output.append(staged.as_str());
        self.current_attributes = String::new();
        Ok(())
    }

    /// Stages ` key=` into the attribute buffer.
    pub fn add_attribute_key(&mut self, attr_key: &str) -> (r: Result<(), Error>)
        ensures
            r is Ok,
            final(self).current_attributes@ == old(self).current_attributes@ + seq![' ']
                + attr_key@ + seq!['='],
            final(self).output == old(self).output,
            final(self).scope == old(self).scope,
            final(self).start_open == old(self).start_open,
            final(self).parent_default_namespace == old(self).parent_default_namespace,
            final(self).parent_default_namespace_to_revert == old(self).parent_default_namespace_to_revert,
            final(self).next_field_context == old(self).next_field_context,
    {
        let ghost pre = self.current_attributes@;
        self.current_attributes.append(" ");
        self.current_attributes.append(attr_key);
        self.current_attributes.append("=");
        proof {
            reveal_strlit(" ");
            reveal_strlit("=");
            assert(" "@ =~= seq![' ']);
            assert("="@ =~= seq!['=']);
            assert(self.current_attributes@ =~= pre + seq![' '] + attr_key@ + seq!['=']);
        }
        Ok(())
    }

    /// Stages `"value"` into the attribute buffer, the value
    /// entity-encoded as every attribute value is.
    pub fn add_attribute_value(&mut self, attr_value: &str) -> (r: Result<(), Error>)
        ensures
            r is Ok,
            final(self).current_attributes@ == old(self).current_attributes@ + seq!['"']
                + encode_chars(attr_value@) + seq!['"'],
            final(self).output == old(self).output,
            final(self).scope == old(self).scope,
            final(self).start_open == old(self).start_open,
            final(self).parent_default_namespace == old(self).parent_default_namespace,
            final(self).parent_default_namespace_to_revert == old(self).parent_default_namespace_to_revert,
            final(self).next_field_context == old(self).next_field_context,
    {
        let ghost pre = self.current_attributes@;
        let enc = match encode(attr_value) {
            Ok(c) => c,
            Err(e) => {
                return Err(e);
            },
        };
        self.current_attributes.append("\"");
        self.current_attributes.append(enc.text.as_str());
        self.current_attributes.append("\"");
        proof {
            reveal_strlit("\"");
            assert("\""@ =~= seq!['"']);
            assert(self.current_attributes@ =~= pre + seq!['"'] + encode_chars(attr_value@)
                + seq!['"']);
        }
        Ok(())
    }

    /// Stages the context of the next field. At most one may be staged
    /// at a time; staging over an unconsumed one fails with
    /// `Error::UnexpectedState`.
    pub fn set_field_context(&mut self, field_context: FieldContext) -> (r: Result<(), Error>)
        ensures
            old(self).next_field_context is Some ==> r == Err::<(), Error>(Error::UnexpectedState)
                && *final(self) == *old(self),
            old(self).next_field_context is None ==> r is Ok && final(self).next_field_context
                == Some(field_context) && final(self).output == old(self).output && final(self).scope == old(self).scope && final(self).start_open == old(self).start_open && final(self).parent_default_namespace == old(self).parent_default_namespace && final(self).parent_default_namespace_to_revert == old(self).parent_default_namespace_to_revert
                && final(self).current_attributes == old(self).current_attributes,
    {
        if self.next_field_context.is_some() {
            return Err(Error::UnexpectedState);
        }
        self.next_field_context = Some(field_context);
        Ok(())
    }

    /// Takes the staged field context, leaving the slot empty.
    pub fn consume_field_context(&mut self) -> (r: Option<FieldContext>)
        ensures
            r == old(self).next_field_context,
            final(self).next_field_context is None,
            final(self).output == old(self).output,
            final(self).scope == old(self).scope,
            final(self).start_open == old(self).start_open,
            final(self).parent_default_namespace == old(self).parent_default_namespace,
            final(self).parent_default_namespace_to_revert == old(self).parent_default_namespace_to_revert,
            final(self).current_attributes == old(self).current_attributes,
    {
        self.next_field_context.take()
    }

    /// Sets the parent default namespace the field-context interface
    /// compares against.
    pub fn set_parent_default_namespace(&mut self, namespace: &str) -> (r: Result<(), Error>)
        ensures
            r is Ok,
            final(self).parent_default_namespace@ == namespace@,
            final(self).output == old(self).output,
            final(self).scope == old(self).scope,
            final(self).start_open == old(self).start_open,
            final(self).parent_default_namespace_to_revert == old(self).parent_default_namespace_to_revert,
            final(self).current_attributes == old(self).current_attributes,
            final(self).next_field_context == old(self).next_field_context,
    {
        self.parent_default_namespace = namespace.to_owned();
        Ok(())
    }

    /// The parent default namespace currently in force for the
    /// field-context interface.
    pub fn parent_default_namespace(&self) -> (r: &str)
        ensures
            r@ == self.parent_default_namespace@,
    {
        self.parent_default_namespace.as_str()
    }

    /// Installs a new parent default namespace, remembering the previous
    /// one so `retrieve_parent_default_namespace` can restore it.
    pub fn update_parent_default_namespace(&mut self, namespace: &str)
        ensures
            final(self).parent_default_namespace@ == namespace@,
            final(self).parent_default_namespace_to_revert == old(self).parent_default_namespace,
            final(self).output == old(self).output,
            final(self).scope == old(self).scope,
            final(self).start_open == old(self).start_open,
            final(self).current_attributes == old(self).current_attributes,
            final(self).next_field_context == old(self).next_field_context,
    {
        self.parent_default_namespace_to_revert = self.parent_default_namespace.clone();
        self.parent_default_namespace = namespace.to_owned();
    }

    /// Restores the parent default namespace remembered by
    /// `update_parent_default_namespace`.
    pub fn retrieve_parent_default_namespace(&mut self)
        ensures
            final(self).parent_default_namespace == old(self).parent_default_namespace_to_revert,
            final(self).parent_default_namespace_to_revert == old(self).parent_default_namespace_to_revert,
            final(self).output == old(self).output,
            final(self).scope == old(self).scope,
            final(self).start_open == old(self).start_open,
            final(self).current_attributes == old(self).current_attributes,
            final(self).next_field_context == old(self).next_field_context,
    {
        self.parent_default_namespace = self.parent_default_namespace_to_revert.clone();
    }

    /// Writes the start tag of a staged field: `<prefix:name>` under a
    /// prefix, `<name xmlns="...">` under a namespace differing from the
    /// parent default, plain `<name>` otherwise.
    pub fn add_open_tag(&mut self, field_context: &FieldContext) -> (r: Result<(), Error>)
        ensures
            r is Ok,
            final(self).output@ == old(self).output@ + open_tag_text(
                *field_context,
                old(self).parent_default_namespace@,
            ),
            Self::same_but_output(*old(self), *final(self)),
    {
        let ghost pre = self.output@;
        proof {
            reveal_strlit("<");
            reveal_strlit(":");
            reveal_strlit(">");
            reveal_strlit(" xmlns=\"");
            reveal_strlit("\">");
            assert("<"@ =~= seq!['<']);
            assert(":"@ =~= seq![':']);
            assert(">"@ =~= seq!['>']);
            assert(" xmlns=\""@ =~= seq![' ', 'x', 'm', 'l', 'n', 's', '=', '"']);
            assert("\">"@ =~= seq!['"', '>']);
        }
        match &field_context.attribute {
            Some(FieldAttribute::Prefix(p)) => {
                self.output.append("<");
                self.output.append(p.as_str());
                self.output.append(":");
                self.output.append(field_context.name.as_str());
                self.output.append(">");
            },
            Some(FieldAttribute::Namespace(ns)) => {
                if !str_eq(self.parent_default_namespace.as_str(), ns.as_str()) {
                    self.output.append("<");
                    self.output.append(field_context.name.as_str());
                    self.output.append(" xmlns=\"");
                    self.output.append(ns.as_str());
                    self.output.append("\">");
                } else {
                    self.output.append("<");
                    self.output.append(field_context.name.as_str());
                    self.output.append(">");
                }
            },
            _ => {
                self.output.append("<");
                self.output.append(field_context.name.as_str());
                self.output.append(">");
            },
        }
        proof {
            assert(self.output@ =~= pre + open_tag_text(
                *field_context,
                self.parent_default_namespace@,
            ));
        }
        Ok(())
    }

    /// Writes the close tag of a staged field: `</prefix:name>` under a
    /// prefix, `</name>` otherwise.
    pub fn add_close_tag(&mut self, field_context: FieldContext) -> (r: Result<(), Error>)
        ensures
            r is Ok,
            final(self).output@ == old(self).output@ + field_close_text(field_context),
            Self::same_but_output(*old(self), *final(self)),
    {
        let ghost pre = self.output@;
        proof {
            reveal_strlit("</");
            reveal_strlit(":");
            reveal_strlit(">");
            assert("</"@ =~= seq!['<', '/']);
            assert(":"@ =~= seq![':']);
            assert(">"@ =~= seq!['>']);
        }
        match &field_context.attribute {
            Some(FieldAttribute::Prefix(p)) => {
                self.output.append("</");
                self.output.append(p.as_str());
                self.output.append(":");
                self.output.append(field_context.name.as_str());
                self.output.append(">");
            },
            _ => {
                self.output.append("</");
                self.output.append(field_context.name.as_str());
                self.output.append(">");
            },
        }
        proof {
            assert(self.output@ =~= pre + field_close_text(field_context));
        }
        Ok(())
    }
}

/// Serializes one scalar value as text. With a field id the value is
/// wrapped in an element named by the id, per the emission policy: no
/// prefix when the id's URI equals the effective default, an
/// outer-declared prefix when one resolves, an inline `xmlns`
/// declaration otherwise. Without a field id only the entity-encoded
/// text is written.
pub fn display_to_xml(value: &str, field: Option<&Id>, serializer: &mut Serializer) -> (r: Result<
    (),
    Error,
>)
    ensures
        old(serializer).start_open ==> r == Err::<(), Error>(Error::UnexpectedState) && *final(serializer) == *old(serializer),
        !old(serializer).start_open && field is None ==> r is Ok && final(serializer).output@
            == old(serializer).output@ + encode_chars(value@) && Serializer::same_but_output(
            *old(serializer),
            *final(serializer),
        ),
        !old(serializer).start_open && (field matches Some(id)) ==> r is Ok && final(serializer).output@ == old(serializer).output@ + scalar_field_text(
            *field->Some_0,
            old(serializer).scope.frames@,
            value@,
        ) && Serializer::same_but_output(*old(serializer), *final(serializer)),
{
    match field {
        Some(id) => {
            if serializer.start_open {
                return Err(Error::UnexpectedState);
            }
            let ghost pre = serializer.output@;
            let ghost frames = serializer.scope.frames@;
            let eff = serializer.default_ns();
            if str_eq(id.ns.as_str(), eff.as_str()) {
                let res = serializer.write_start(None, id.name.as_str(), None);
                match res {
                    Ok(u) => {},
                    Err(e) => {
                        return Err(e);
                    },
                }
                let res = serializer.end_start();
                match res {
                    Ok(u) => {},
                    Err(e) => {
                        return Err(e);
                    },
                }
                let res = serializer.write_str(value);
                match res {
                    Ok(u) => {},
                    Err(e) => {
                        return Err(e);
                    },
                }
                let res = serializer.write_close(None, id.name.as_str());
                match res {
                    Ok(u) => {},
                    Err(e) => {
                        return Err(e);
                    },
                }
                proof {
                    assert(serializer.output@ =~= pre + scalar_field_text(*id, frames, value@));
                }
                Ok(())
            } else {
                match serializer.prefix(id.ns.as_str()) {
                    Some(p) => {
                        let res = serializer.write_start(Some(p.as_str()), id.name.as_str(), None);
                        match res {
                            Ok(u) => {},
                            Err(e) => {
                                return Err(e);
                            },
                        }
                        let res = serializer.end_start();
                        match res {
                            Ok(u) => {},
                            Err(e) => {
                                return Err(e);
                            },
                        }
                        let res = serializer.write_str(value);
                        match res {
                            Ok(u) => {},
                            Err(e) => {
                                return Err(e);
                            },
                        }
                        let res = serializer.write_close(Some(p.as_str()), id.name.as_str());
                        match res {
                            Ok(u) => {},
                            Err(e) => {
                                return Err(e);
                            },
                        }
                        proof {
                            assert(serializer.output@ =~= pre + scalar_field_text(
                                *id,
                                frames,
                                value@,
                            ));
                        }
                        Ok(())
                    },
                    None => {
                        let res = serializer.write_start(
                            None,
                            id.name.as_str(),
                            Some(id.ns.as_str()),
                        );
                        match res {
                            Ok(u) => {},
                            Err(e) => {
                                return Err(e);
                            },
                        }
                        let res = serializer.end_start();
                        match res {
                            Ok(u) => {},
                            Err(e) => {
                                return Err(e);
                            },
                        }
                        let res = serializer.write_str(value);
                        match res {
                            Ok(u) => {},
                            Err(e) => {
                                return Err(e);
                            },
                        }
                        let res = serializer.write_close(None, id.name.as_str());
                        match res {
                            Ok(u) => {},
                            Err(e) => {
                                return Err(e);
                            },
                        }
                        proof {
                            assert(serializer.output@ =~= pre + scalar_field_text(
                                *id,
                                frames,
                                value@,
                            ));
                        }
                        Ok(())
                    },
                }
            }
        },
        None => { serializer.write_str(value) },
    }
}

/// Serializes an optional scalar: a present value serializes as the
/// scalar would, an absent one writes nothing at all.
pub fn display_opt_to_xml(value: &Option<String>, field: Option<&Id>, serializer: &mut Serializer)
    -> (r: Result<(), Error>)
    ensures
        (*value) is None ==> r is Ok && *final(serializer) == *old(serializer),
        (*value) is Some && old(serializer).start_open ==> r == Err::<(), Error>(
            Error::UnexpectedState,
        ) && *final(serializer) == *old(serializer),
        (*value) is Some && !old(serializer).start_open && field is None ==> r is Ok && final(serializer).output@ == old(serializer).output@ + encode_chars((*value)->Some_0@)
            && Serializer::same_but_output(*old(serializer), *final(serializer)),
        (*value) is Some && !old(serializer).start_open && field is Some ==> r is Ok && final(serializer).output@ == old(serializer).output@ + scalar_field_text(
            *field->Some_0,
            old(serializer).scope.frames@,
            (*value)->Some_0@,
        ) && Serializer::same_but_output(*old(serializer), *final(serializer)),
{
    match value {
        Some(v) => display_to_xml(v.as_str(), field, serializer),
        None => Ok(()),
    }
}

} // verus!
