//! Hand-written bindings for a few record shapes, in the style the code
//! generators would emit: each type carries the serialize routine (root
//! tag, scope frame, fields per the emission policy, close, pop) and the
//! field-dispatch loop (enter, match children by id, merge into
//! accumulators, skip unknown subtrees, finalize). They double as the
//! reference for binding authors.

use vstd::prelude::*;
use crate::{Error, Id, Kind, str_eq};
use crate::ser::{Serializer, display_to_xml, start_tag_text, close_tag_text, new_decls_text,
    prefix_decl_text, xmlns_decl_text};
use crate::de::{Deserializer, enterable, start_attrs, start_empty, start_len, start_local,
    start_ns, start_prefix, first_sig, run_default, text_scan};
use crate::adapters::{from_xml_str, deserialize_string, finalize_required, bool_to_str, bool_text,
    lemma_int_text_plain, lemma_bool_text_plain, XmlScalar};
use crate::scope::{Binding, Frame, effective_default_of, prefix_for_uri, bindings_prefix_for};
use crate::entity::{encode_chars, decode_chars};
use crate::num::{u64_text, int_text, u64_to_string, i64_to_string};
use crate::token::{tokenize, tokens_of, XmlToken};

verus! {

/// A record with one required byte-sized scalar field, element `Bar`
/// with child `bar`, no namespace.
#[derive(Debug, PartialEq, Eq)]
pub struct Bar {
    pub bar: u8,
}

/// A record with one required string field, element `Baz` with child
/// `baz`, no namespace.
#[derive(Debug, PartialEq, Eq)]
pub struct Baz {
    pub baz: String,
}

/// A forwarding variant: exactly one of its alternatives, chosen on
/// read by the incoming element's name.
#[derive(Debug, PartialEq, Eq)]
pub enum Foo {
    Bar(Bar),
    Baz(Baz),
}

/// The document `Bar` serializes to.
pub open spec fn bar_xml(v: Bar) -> Seq<char> {
    simple_record_text("Bar"@, "bar"@, u64_text(v.bar as int))
}

/// The document `Baz` serializes to.
pub open spec fn baz_xml(v: Baz) -> Seq<char> {
    simple_record_text("Baz"@, "baz"@, v.baz@)
}

/// The document `Foo` serializes to: that of its active alternative.
pub open spec fn foo_xml(v: Foo) -> Seq<char> {
    match v {
        Foo::Bar(b) => bar_xml(b),
        Foo::Baz(z) => baz_xml(z),
    }
}

/// The serializer state a record binding leaves unchanged: everything
/// but the output text.
pub open spec fn wraps_cleanly(pre: Serializer, post: Serializer) -> bool {
    &&& post.scope.frames@ == pre.scope.frames@
    &&& post.start_open == pre.start_open
    &&& post.parent_default_namespace == pre.parent_default_namespace
    &&& post.parent_default_namespace_to_revert == pre.parent_default_namespace_to_revert
    &&& post.current_attributes == pre.current_attributes
    &&& post.next_field_context == pre.next_field_context
}


/// The document one scalar field wrapped in a root element produces:
/// no namespace declarations, the field text entity-encoded.
pub open spec fn simple_record_text(root: Seq<char>, field: Seq<char>, text: Seq<char>) -> Seq<
    char,
> {
    seq!['<'] + root + seq!['>', '<'] + field + seq!['>'] + encode_chars(text) + seq!['<', '/']
        + field + seq!['>', '<', '/'] + root + seq!['>']
}

/// The same document when a non-empty default namespace was in force:
/// the root resets it with an explicit empty declaration.
pub open spec fn simple_record_reset_text(
    root: Seq<char>,
    field: Seq<char>,
    text: Seq<char>,
) -> Seq<char> {
    seq!['<'] + root + xmlns_decl_text(Seq::<char>::empty()) + seq!['>', '<'] + field + seq!['>']
        + encode_chars(text) + seq!['<', '/'] + field + seq!['>', '<', '/'] + root + seq!['>']
}

/// Writes `<root><field>text</field></root>`: the shared shape of the
/// single-scalar record bindings (root tag, an empty scope frame, the
/// wrapped field, the close tag, the frame popped). Under a non-empty
/// effective default namespace the root carries an explicit empty
/// declaration.
#[verifier::rlimit(100)]
#[verifier::spinoff_prover]
fn write_simple_record(serializer: &mut Serializer, root: &str, field: &str, text: &str) -> (r:
    Result<(), Error>)
    ensures
        old(serializer).start_open ==> r == Err::<(), Error>(Error::UnexpectedState) && *final(serializer) == *old(serializer),
        !old(serializer).start_open ==> r is Ok && wraps_cleanly(
            *old(serializer),
            *final(serializer),
        ),
        !old(serializer).start_open && effective_default_of(old(serializer).scope.frames@)
            == Seq::<char>::empty() ==> final(serializer).output@ == old(serializer).output@
            + simple_record_text(root@, field@, text@),
        !old(serializer).start_open && effective_default_of(old(serializer).scope.frames@)
            != Seq::<char>::empty() ==> final(serializer).output@ == old(serializer).output@
            + simple_record_reset_text(root@, field@, text@),
{
    if serializer.start_open {
        return Err(Error::UnexpectedState);
    }
    let ghost pre = serializer.output@;
    let ghost frames0 = serializer.scope.frames@;
    let eff = serializer.default_ns();
    let res = if str_eq(eff.as_str(), "") {
        serializer.write_start(None, root, None)
    } else {
        serializer.write_start(None, root, Some(""))
    };
    match res {
        Ok(u) => {},
        Err(e) => {
            return Err(e);
        },
    }
    let ghost o1 = serializer.output@;
    let frame = Frame { default_ns: String::new(), bindings: Vec::new() };
    let ghost gframe = frame;
    let tok = match serializer.push(frame) {
        Ok(t) => t,
        Err(e) => {
            return Err(e);
        },
    };
    let ghost o2 = serializer.output@;
    match serializer.end_start() {
        Ok(u) => {},
        Err(e) => {
            return Err(e);
        },
    }
    let ghost o3 = serializer.output@;
    let id = Id { ns: String::new(), name: field.to_owned() };
    match display_to_xml(text, Some(&id), serializer) {
        Ok(u) => {},
        Err(e) => {
            return Err(e);
        },
    }
    let ghost o4 = serializer.output@;
    match serializer.write_close(None, root) {
        Ok(u) => {},
        Err(e) => {
            return Err(e);
        },
    }
    serializer.pop(tok);
    proof {
        assert(serializer.scope.frames@ =~= frames0);
        reveal_strlit("");
        if effective_default_of(frames0) == Seq::<char>::empty() {
            let frames1 = frames0.push(gframe);
            assert(""@ =~= Seq::<char>::empty());
            assert(o1 =~= pre + seq!['<'] + root@);
            assert(o2 =~= o1);
            assert(o3 =~= o2 + seq!['>']);
            assert(effective_default_of(frames1) =~= Seq::<char>::empty());
            assert(o4 =~= o3 + (start_tag_text(None, field@, None) + seq!['>'] + encode_chars(
                text@,
            ) + close_tag_text(None, field@)));
            assert(o4 =~= o3 + seq!['<'] + field@ + seq!['>'] + encode_chars(text@) + seq![
                '<',
                '/',
            ] + field@ + seq!['>']);
            assert(serializer.output@ =~= o4 + seq!['<', '/'] + root@ + seq!['>']);
            assert(serializer.output@ =~= pre + simple_record_text(root@, field@, text@));
        } else {
            let frames1 = frames0.push(gframe);
            assert(""@ =~= Seq::<char>::empty());
            assert(o1 =~= pre + seq!['<'] + root@ + xmlns_decl_text(Seq::<char>::empty()));
            assert(o2 =~= o1);
            assert(o3 =~= o2 + seq!['>']);
            assert(effective_default_of(frames1) =~= Seq::<char>::empty());
            assert(o4 =~= o3 + (start_tag_text(None, field@, None) + seq!['>'] + encode_chars(
                text@,
            ) + close_tag_text(None, field@)));
            assert(o4 =~= o3 + seq!['<'] + field@ + seq!['>'] + encode_chars(text@) + seq![
                '<',
                '/',
            ] + field@ + seq!['>']);
            assert(serializer.output@ =~= o4 + seq!['<', '/'] + root@ + seq!['>']);
            assert(serializer.output@ =~= pre + simple_record_reset_text(root@, field@, text@));
        }
    }
    Ok(())
}

/// The token form of `<root><field>text</field></root>`: what the token
/// source yields for a document of the shape the single-scalar record
/// bindings write. Tokens past the root's close tag are not constrained.
pub open spec fn simple_record_tokens(
    toks: Seq<XmlToken>,
    root: Seq<char>,
    field: Seq<char>,
    text: Seq<char>,
) -> bool {
    &&& toks.len() >= 7
    &&& (toks[0] matches XmlToken::ElemStart { prefix, local } && prefix@.len() == 0 && local@
        == root)
    &&& toks[1] is StartClose
    &&& (toks[2] matches XmlToken::ElemStart { prefix, local } && prefix@.len() == 0 && local@
        == field)
    &&& toks[3] is StartClose
    &&& (toks[4] matches XmlToken::Text { raw } && raw@ == text)
    &&& (toks[5] matches XmlToken::ElemClose { prefix, local } && prefix@.len() == 0 && local@
        == field)
    &&& (toks[6] matches XmlToken::ElemClose { prefix, local } && prefix@.len() == 0 && local@
        == root)
}

/// The token form of `<root><field>t1</field><field>` dots: a second
/// sibling matching the same once-optional field follows a complete
/// first occurrence.
pub open spec fn dup_record_tokens(
    toks: Seq<XmlToken>,
    root: Seq<char>,
    field: Seq<char>,
    t1: Seq<char>,
) -> bool {
    &&& toks.len() >= 8
    &&& (toks[0] matches XmlToken::ElemStart { prefix, local } && prefix@.len() == 0 && local@
        == root)
    &&& toks[1] is StartClose
    &&& (toks[2] matches XmlToken::ElemStart { prefix, local } && prefix@.len() == 0 && local@
        == field)
    &&& toks[3] is StartClose
    &&& (toks[4] matches XmlToken::Text { raw } && raw@ == t1)
    &&& (toks[5] matches XmlToken::ElemClose { prefix, local } && prefix@.len() == 0 && local@
        == field)
    &&& (toks[6] matches XmlToken::ElemStart { prefix, local } && prefix@.len() == 0 && local@
        == field)
    &&& toks[7] is StartClose
}

/// What a single-scalar record binding returns on the token form of a
/// document it serializes: the text entity-decodes and parses into the
/// field, an undecodable entity or unparsable text gives the adapter's
/// error.
pub open spec fn scalar_record_outcome<T: XmlScalar>(t: Seq<char>, r: Result<T, Error>) -> bool {
    match decode_chars(t) {
        Ok(p) => match T::from_text_spec(p.0) {
            Some(v) => r == Ok::<T, Error>(v),
            None => r == Err::<T, Error>(Error::UnexpectedValue),
        },
        Err(b) => r matches Err(Error::InvalidEntity(s)) && s@ == b,
    }
}

/// Reads `<root><field>text</field></root>` back: the field-dispatch
/// loop shared by the single-scalar record bindings. Children named
/// `field` merge into a once-optional accumulator, unknown children are
/// skipped whole, and a missing field is `Error::MissingValue`. On the
/// token form of a document the binding writes, the result is pinned:
/// the decoded text parses back into the field.
#[verifier::rlimit(100)]
fn read_scalar_record<T: XmlScalar>(deserializer: &mut Deserializer, root: &str, field: &str)
    -> (r: Result<T, Error>)
    requires
        old(deserializer).wf(),
    ensures
        final(deserializer).wf(),
        final(deserializer).tokens == old(deserializer).tokens,
        r is Ok ==> final(deserializer).elements@ == old(deserializer).elements@ && final(deserializer).scope.frames@ == old(deserializer).scope.frames@,
        forall|t: Seq<char>|
            #[trigger] simple_record_tokens(old(deserializer).remaining(), root@, field@, t)
                && effective_default_of(old(deserializer).scope.frames@) == Seq::<char>::empty()
                ==> scalar_record_outcome::<T>(t, r),
        forall|t1: Seq<char>|
            #[trigger] dup_record_tokens(old(deserializer).remaining(), root@, field@, t1)
                && effective_default_of(old(deserializer).scope.frames@) == Seq::<char>::empty()
                && (decode_chars(t1) matches Ok(p) && T::from_text_spec(p.0) is Some) ==> r
                == Err::<T, Error>(Error::DuplicateValue),
{
    let ghost rem0 = old(deserializer).remaining();
    let ghost frames0 = old(deserializer).scope.frames@;
    let ghost pos0 = old(deserializer).pos as int;
    proof {
        reveal_strlit("");
        assert forall|t: Seq<char>|
            #[trigger] simple_record_tokens(rem0, root@, field@, t) && effective_default_of(
                frames0,
            ) == Seq::<char>::empty() implies first_sig(rem0) == 0 && enterable(rem0, frames0)
            && start_local(rem0) == root@ && start_ns(
            start_prefix(rem0),
            start_attrs(rem0),
            frames0,
        ) == Some(Seq::<char>::empty()) && start_len(rem0) == 2 && !start_empty(rem0)
            && run_default(start_attrs(rem0)) is None by {
            let run = rem0.drop_first();
            assert(run[0] == rem0[1]);
            assert(crate::de::attr_run_len(run) == 0);
            assert(start_attrs(rem0) =~= Seq::<XmlToken>::empty());
            assert(run_default(Seq::<XmlToken>::empty()) is None);
            assert(crate::de::decls_decode(Seq::<XmlToken>::empty()));
            assert(start_prefix(rem0).len() == 0);
        }
        assert forall|t1: Seq<char>|
            #[trigger] dup_record_tokens(rem0, root@, field@, t1) && effective_default_of(
                frames0,
            ) == Seq::<char>::empty() implies first_sig(rem0) == 0 && enterable(rem0, frames0)
            && start_local(rem0) == root@ && start_ns(
            start_prefix(rem0),
            start_attrs(rem0),
            frames0,
        ) == Some(Seq::<char>::empty()) && start_len(rem0) == 2 && !start_empty(rem0)
            && run_default(start_attrs(rem0)) is None by {
            let run = rem0.drop_first();
            assert(run[0] == rem0[1]);
            assert(crate::de::attr_run_len(run) == 0);
            assert(start_attrs(rem0) =~= Seq::<XmlToken>::empty());
            assert(run_default(Seq::<XmlToken>::empty()) is None);
            assert(crate::de::decls_decode(Seq::<XmlToken>::empty()));
            assert(start_prefix(rem0).len() == 0);
        }
    }
    let expected = Id { ns: String::new(), name: root.to_owned() };
    match deserializer.enter_element(Some(&expected)) {
        Ok(u) => {},
        Err(e) => {
            proof {
                assert forall|t: Seq<char>|
                    !(#[trigger] simple_record_tokens(rem0, root@, field@, t)
                        && effective_default_of(frames0) == Seq::<char>::empty()) by {
                    if simple_record_tokens(rem0, root@, field@, t) && effective_default_of(
                        frames0,
                    ) == Seq::<char>::empty() {
                        assert(rem0.skip(0) =~= rem0);
                        assert(""@ =~= Seq::<char>::empty());
                    }
                }
                assert forall|t1: Seq<char>|
                    !(#[trigger] dup_record_tokens(rem0, root@, field@, t1)
                        && effective_default_of(frames0) == Seq::<char>::empty()) by {
                    if dup_record_tokens(rem0, root@, field@, t1) && effective_default_of(
                        frames0,
                    ) == Seq::<char>::empty() {
                        assert(rem0.skip(0) =~= rem0);
                        assert(""@ =~= Seq::<char>::empty());
                    }
                }
            }
            return Err(e);
        },
    }
    let ghost base_elems = deserializer.elements@;
    let ghost base_frames = deserializer.scope.frames@;
    proof {
        assert forall|t: Seq<char>|
            #[trigger] simple_record_tokens(rem0, root@, field@, t) && effective_default_of(
                frames0,
            ) == Seq::<char>::empty() implies deserializer.pos == pos0 + 2 && !base_elems.last().empty && base_elems.last().ns@ =~= Seq::<char>::empty() && base_elems.last().local@
            == root@ && base_elems.last().prefix@.len() == 0 && effective_default_of(base_frames)
            =~= Seq::<char>::empty() by {
            assert(rem0.skip(0) =~= rem0);
        }
        assert forall|t1: Seq<char>|
            #[trigger] dup_record_tokens(rem0, root@, field@, t1) && effective_default_of(
                frames0,
            ) == Seq::<char>::empty() implies deserializer.pos == pos0 + 2 && !base_elems.last().empty && base_elems.last().ns@ =~= Seq::<char>::empty() && base_elems.last().local@
            == root@ && base_elems.last().prefix@.len() == 0 && effective_default_of(base_frames)
            =~= Seq::<char>::empty() by {
            assert(rem0.skip(0) =~= rem0);
        }
    }
    let mut acc: Option<T> = None;
    loop
        invariant
            deserializer.wf(),
            deserializer.tokens == old(deserializer).tokens,
            deserializer.elements@ == base_elems,
            deserializer.scope.frames@ == base_frames,
            base_elems.len() > 0,
            base_elems.drop_last() == old(deserializer).elements@,
            base_frames.drop_last() == old(deserializer).scope.frames@,
            rem0 == old(deserializer).remaining(),
            frames0 == old(deserializer).scope.frames@,
            pos0 == old(deserializer).pos,
            forall|t: Seq<char>|
                #[trigger] simple_record_tokens(rem0, root@, field@, t) && effective_default_of(
                    frames0,
                ) == Seq::<char>::empty() ==> ((deserializer.pos == pos0 + 2 && acc is None) || (
                deserializer.pos == pos0 + 6 && (decode_chars(t) matches Ok(p)
                    && T::from_text_spec(p.0) matches Some(v) && acc == Some(v)))),
            forall|t1: Seq<char>|
                #[trigger] dup_record_tokens(rem0, root@, field@, t1) && effective_default_of(
                    frames0,
                ) == Seq::<char>::empty() && (decode_chars(t1) matches Ok(p)
                    && T::from_text_spec(p.0) is Some) ==> ((deserializer.pos == pos0 + 2 && acc
                is None) || (deserializer.pos == pos0 + 6 && acc is Some)),
            forall|t: Seq<char>|
                #[trigger] simple_record_tokens(rem0, root@, field@, t) && effective_default_of(
                    frames0,
                ) == Seq::<char>::empty() ==> (!base_elems.last().empty && base_elems.last().ns@
                =~= Seq::<char>::empty() && base_elems.last().local@ == root@
                && base_elems.last().prefix@.len() == 0 && effective_default_of(base_frames) =~= Seq::<char>::empty()),
            forall|t1: Seq<char>|
                #[trigger] dup_record_tokens(rem0, root@, field@, t1) && effective_default_of(
                    frames0,
                ) == Seq::<char>::empty() ==> (!base_elems.last().empty && base_elems.last().ns@
                =~= Seq::<char>::empty() && base_elems.last().local@ == root@
                && base_elems.last().prefix@.len() == 0 && effective_default_of(base_frames) =~= Seq::<char>::empty()),
        ensures
            forall|t: Seq<char>|
                #[trigger] simple_record_tokens(rem0, root@, field@, t) && effective_default_of(
                    frames0,
                ) == Seq::<char>::empty() ==> (deserializer.pos == pos0 + 6 && (decode_chars(t)
                    matches Ok(p) && T::from_text_spec(p.0) matches Some(v) && acc == Some(v))),
            forall|t1: Seq<char>|
                #[trigger] dup_record_tokens(rem0, root@, field@, t1) && effective_default_of(
                    frames0,
                ) == Seq::<char>::empty() ==> !(decode_chars(t1) matches Ok(p)
                    && T::from_text_spec(p.0) is Some),
        decreases deserializer.tokens@.len() - deserializer.pos,
    {
        let ghost pre_loop = *deserializer;
        proof {
            reveal_strlit("");
            assert forall|t: Seq<char>|
                #[trigger] simple_record_tokens(rem0, root@, field@, t) && effective_default_of(
                    frames0,
                ) == Seq::<char>::empty() && deserializer.pos == pos0 + 2 implies enterable(
                deserializer.remaining(),
                base_frames,
            ) && first_sig(deserializer.remaining()) == 0 && start_local(deserializer.remaining())
                == field@ && start_len(deserializer.remaining()) == 2 && !start_empty(
                deserializer.remaining(),
            ) && start_ns(
                start_prefix(deserializer.remaining()),
                start_attrs(deserializer.remaining()),
                base_frames,
            ) == Some(Seq::<char>::empty()) by {
                let remc = deserializer.remaining();
                assert(remc =~= rem0.skip(2));
                assert(remc[0] == rem0[2] && remc[1] == rem0[3]);
                let runc = remc.drop_first();
                assert(runc[0] == remc[1]);
                assert(crate::de::attr_run_len(runc) == 0);
                assert(start_attrs(remc) =~= Seq::<XmlToken>::empty());
                assert(run_default(Seq::<XmlToken>::empty()) is None);
                assert(crate::de::decls_decode(Seq::<XmlToken>::empty()));
            }
            assert forall|t1: Seq<char>|
                #[trigger] dup_record_tokens(rem0, root@, field@, t1) && effective_default_of(
                    frames0,
                ) == Seq::<char>::empty() && (deserializer.pos == pos0 + 2 || deserializer.pos
                == pos0 + 6) implies enterable(deserializer.remaining(), base_frames) && first_sig(
                deserializer.remaining(),
            ) == 0 && start_local(deserializer.remaining()) == field@ && start_len(
                deserializer.remaining(),
            ) == 2 && !start_empty(deserializer.remaining()) && start_ns(
                start_prefix(deserializer.remaining()),
                start_attrs(deserializer.remaining()),
                base_frames,
            ) == Some(Seq::<char>::empty()) by {
                let remc = deserializer.remaining();
                if deserializer.pos == pos0 + 2 {
                    assert(remc =~= rem0.skip(2));
                    assert(remc[0] == rem0[2] && remc[1] == rem0[3]);
                } else {
                    assert(remc =~= rem0.skip(6));
                    assert(remc[0] == rem0[6] && remc[1] == rem0[7]);
                }
                let runc = remc.drop_first();
                assert(runc[0] == remc[1]);
                assert(crate::de::attr_run_len(runc) == 0);
                assert(start_attrs(remc) =~= Seq::<XmlToken>::empty());
                assert(run_default(Seq::<XmlToken>::empty()) is None);
                assert(crate::de::decls_decode(Seq::<XmlToken>::empty()));
            }
        }
        let more = match deserializer.next_child() {
            Ok(b) => b,
            Err(e) => {
                proof {
                    assert forall|t: Seq<char>|
                        !(#[trigger] simple_record_tokens(rem0, root@, field@, t)
                            && effective_default_of(frames0) == Seq::<char>::empty()) by {
                        if simple_record_tokens(rem0, root@, field@, t) && effective_default_of(
                            frames0,
                        ) == Seq::<char>::empty() {
                            if pre_loop.pos == pos0 + 2 {
                            } else {
                                assert(pre_loop.remaining() =~= rem0.skip(6));
                                assert(pre_loop.remaining()[0] == rem0[6]);
                                assert(first_sig(pre_loop.remaining()) == 0);
                            }
                        }
                    }
                    assert forall|t1: Seq<char>|
                        !(#[trigger] dup_record_tokens(rem0, root@, field@, t1)
                            && effective_default_of(frames0) == Seq::<char>::empty() && (
                        decode_chars(t1) matches Ok(p) && T::from_text_spec(p.0) is Some)) by {
                        if dup_record_tokens(rem0, root@, field@, t1) && effective_default_of(
                            frames0,
                        ) == Seq::<char>::empty() && (decode_chars(t1) matches Ok(p)
                            && T::from_text_spec(p.0) is Some) {
                            assert(false);
                        }
                    }
                }
                return Err(e);
            },
        };
        if !more {
            proof {
                assert forall|t: Seq<char>|
                    #[trigger] simple_record_tokens(rem0, root@, field@, t)
                        && effective_default_of(frames0) == Seq::<char>::empty() implies (
                deserializer.pos == pos0 + 6 && (decode_chars(t) matches Ok(p)
                    && T::from_text_spec(p.0) matches Some(v) && acc == Some(v))) by {
                    if pre_loop.pos == pos0 + 2 && acc is None {
                        assert(false);
                    }
                }
                assert forall|t1: Seq<char>|
                    #[trigger] dup_record_tokens(rem0, root@, field@, t1) && effective_default_of(
                        frames0,
                    ) == Seq::<char>::empty() implies !(decode_chars(t1) matches Ok(p)
                    && T::from_text_spec(p.0) is Some) by {
                    if decode_chars(t1) matches Ok(p) && T::from_text_spec(p.0) is Some {
                        assert(false);
                    }
                }
            }
            break ;
        }
        let id = deserializer.current_id();
        let hit = str_eq(id.name.as_str(), field) && str_eq(id.ns.as_str(), "");
        if hit {
            let ghost pre_field = *deserializer;
            match from_xml_str::<T>(deserializer, &mut acc) {
                Ok(u) => {},
                Err(e) => {
                    proof {
                        assert forall|t: Seq<char>|
                            #[trigger] simple_record_tokens(rem0, root@, field@, t)
                                && effective_default_of(frames0) == Seq::<char>::empty() implies
                            scalar_record_outcome::<T>(t, Err(e)) by {
                            assert(pre_field.remaining() =~= rem0.skip(4));
                            assert(pre_field.remaining()[0] == rem0[4]);
                            assert(pre_field.remaining().drop_first() =~= rem0.skip(5));
                            assert(rem0.skip(5)[0] == rem0[5]);
                            assert(text_scan(rem0.skip(5), t, true) == Ok::<
                                (Seq<char>, bool, int),
                                Error,
                            >((t, true, 0)));
                            assert(Seq::<char>::empty() + t =~= t);
                        }
                        assert forall|t1: Seq<char>|
                            #[trigger] dup_record_tokens(rem0, root@, field@, t1)
                                && effective_default_of(frames0) == Seq::<char>::empty() && (
                            decode_chars(t1) matches Ok(p) && T::from_text_spec(p.0) is Some)
                                implies e == Error::DuplicateValue by {
                            if pre_loop.pos == pos0 + 2 {
                                assert(pre_field.pos == pos0 + 4);
                                assert(pre_field.remaining() =~= rem0.skip(4));
                                assert(pre_field.remaining()[0] == rem0[4]);
                                assert(pre_field.remaining().drop_first() =~= rem0.skip(5));
                                assert(rem0.skip(5)[0] == rem0[5]);
                                assert(text_scan(rem0.skip(5), t1, true) == Ok::<
                                    (Seq<char>, bool, int),
                                    Error,
                                >((t1, true, 0)));
                                assert(Seq::<char>::empty() + t1 =~= t1);
                                assert(false);
                            }
                        }
                    }
                    return Err(e);
                },
            }
            let ghost pre_exit = *deserializer;
            match deserializer.exit_element() {
                Ok(u) => {},
                Err(e) => {
                    proof {
                        assert forall|t: Seq<char>|
                            !(#[trigger] simple_record_tokens(rem0, root@, field@, t)
                                && effective_default_of(frames0) == Seq::<char>::empty()) by {
                            if simple_record_tokens(rem0, root@, field@, t)
                                && effective_default_of(frames0) == Seq::<char>::empty() {
                                assert(pre_field.pos == pos0 + 4);
                                assert(pre_field.remaining() =~= rem0.skip(4));
                                assert(pre_field.remaining()[0] == rem0[4]);
                                assert(pre_field.remaining().drop_first() =~= rem0.skip(5));
                                assert(rem0.skip(5)[0] == rem0[5]);
                                assert(text_scan(rem0.skip(5), t, true) == Ok::<
                                    (Seq<char>, bool, int),
                                    Error,
                                >((t, true, 0)));
                                assert(Seq::<char>::empty() + t =~= t);
                                assert(pre_exit.pos == pos0 + 5);
                                assert(pre_exit.remaining() =~= rem0.skip(5));
                                assert(pre_exit.remaining()[0] == rem0[5]);
                                assert(first_sig(pre_exit.remaining()) == 0);
                                assert(pre_exit.elements@.last().local@ == field@);
                                assert(pre_exit.elements@.last().prefix@ =~= (match rem0[5] {
                                    XmlToken::ElemClose { prefix, local } => prefix@,
                                    _ => Seq::<char>::empty(),
                                }));
                                assert(!pre_exit.elements@.last().empty);
                                assert(false);
                            }
                        }
                        assert forall|t1: Seq<char>|
                            !(#[trigger] dup_record_tokens(rem0, root@, field@, t1)
                                && effective_default_of(frames0) == Seq::<char>::empty() && (
                            decode_chars(t1) matches Ok(p) && T::from_text_spec(p.0) is Some)) by {
                            if dup_record_tokens(rem0, root@, field@, t1) && effective_default_of(
                                frames0,
                            ) == Seq::<char>::empty() && (decode_chars(t1) matches Ok(p)
                                && T::from_text_spec(p.0) is Some) {
                                if pre_loop.pos == pos0 + 2 {
                                    assert(pre_field.pos == pos0 + 4);
                                    assert(pre_field.remaining() =~= rem0.skip(4));
                                    assert(pre_field.remaining()[0] == rem0[4]);
                                    assert(pre_field.remaining().drop_first() =~= rem0.skip(5));
                                    assert(rem0.skip(5)[0] == rem0[5]);
                                    assert(text_scan(rem0.skip(5), t1, true) == Ok::<
                                        (Seq<char>, bool, int),
                                        Error,
                                    >((t1, true, 0)));
                                    assert(Seq::<char>::empty() + t1 =~= t1);
                                    assert(pre_exit.pos == pos0 + 5);
                                    assert(pre_exit.remaining() =~= rem0.skip(5));
                                    assert(pre_exit.remaining()[0] == rem0[5]);
                                    assert(first_sig(pre_exit.remaining()) == 0);
                                    assert(pre_exit.elements@.last().local@ == field@);
                                    assert(pre_exit.elements@.last().prefix@ =~= (match rem0[5] {
                                        XmlToken::ElemClose { prefix, local } => prefix@,
                                        _ => Seq::<char>::empty(),
                                    }));
                                    assert(!pre_exit.elements@.last().empty);
                                    assert(false);
                                } else {
                                    assert(false);
                                }
                            }
                        }
                    }
                    return Err(e);
                },
            }
            proof {
                assert(deserializer.elements@ =~= base_elems);
                assert(deserializer.scope.frames@ =~= base_frames);
                assert forall|t: Seq<char>|
                    #[trigger] simple_record_tokens(rem0, root@, field@, t)
                        && effective_default_of(frames0) == Seq::<char>::empty() implies (
                deserializer.pos == pos0 + 6 && (decode_chars(t) matches Ok(p)
                    && T::from_text_spec(p.0) matches Some(v) && acc == Some(v))) by {
                    assert(pre_field.remaining() =~= rem0.skip(4));
                    assert(pre_field.remaining()[0] == rem0[4]);
                    assert(pre_field.remaining().drop_first() =~= rem0.skip(5));
                    assert(rem0.skip(5)[0] == rem0[5]);
                    assert(text_scan(rem0.skip(5), t, true) == Ok::<
                        (Seq<char>, bool, int),
                        Error,
                    >((t, true, 0)));
                    assert(Seq::<char>::empty() + t =~= t);
                }
                assert forall|t1: Seq<char>|
                    #[trigger] dup_record_tokens(rem0, root@, field@, t1) && effective_default_of(
                        frames0,
                    ) == Seq::<char>::empty() && (decode_chars(t1) matches Ok(p)
                        && T::from_text_spec(p.0) is Some) implies (deserializer.pos == pos0 + 6
                    && acc is Some) by {
                    if pre_loop.pos == pos0 + 2 {
                        assert(pre_field.pos == pos0 + 4);
                        assert(pre_field.remaining() =~= rem0.skip(4));
                        assert(pre_field.remaining()[0] == rem0[4]);
                        assert(pre_field.remaining().drop_first() =~= rem0.skip(5));
                        assert(rem0.skip(5)[0] == rem0[5]);
                        assert(text_scan(rem0.skip(5), t1, true) == Ok::<
                            (Seq<char>, bool, int),
                            Error,
                        >((t1, true, 0)));
                        assert(Seq::<char>::empty() + t1 =~= t1);
                    } else {
                        assert(false);
                    }
                }
            }
        } else {
            proof {
                assert forall|t: Seq<char>|
                    !(#[trigger] simple_record_tokens(rem0, root@, field@, t)
                        && effective_default_of(frames0) == Seq::<char>::empty()) by {
                    if simple_record_tokens(rem0, root@, field@, t) && effective_default_of(
                        frames0,
                    ) == Seq::<char>::empty() {
                        assert(""@ =~= Seq::<char>::empty());
                        if pre_loop.pos == pos0 + 2 {
                            assert(pre_loop.remaining() =~= rem0.skip(2));
                            assert(pre_loop.remaining()[0] == rem0[2]);
                            assert(first_sig(pre_loop.remaining()) == 0);
                            assert(id.name@ == field@);
                            assert(id.ns@ =~= ""@);
                            assert(false);
                        } else {
                            assert(pre_loop.remaining() =~= rem0.skip(6));
                            assert(pre_loop.remaining()[0] == rem0[6]);
                            assert(first_sig(pre_loop.remaining()) == 0);
                            assert(false);
                        }
                    }
                }
                assert forall|t1: Seq<char>|
                    !(#[trigger] dup_record_tokens(rem0, root@, field@, t1)
                        && effective_default_of(frames0) == Seq::<char>::empty() && (decode_chars(
                        t1,
                    ) matches Ok(p) && T::from_text_spec(p.0) is Some)) by {
                    if dup_record_tokens(rem0, root@, field@, t1) && effective_default_of(frames0)
                        == Seq::<char>::empty() && (decode_chars(t1) matches Ok(p)
                        && T::from_text_spec(p.0) is Some) {
                        assert(""@ =~= Seq::<char>::empty());
                        if pre_loop.pos == pos0 + 2 {
                            assert(id.name@ == field@);
                            assert(id.ns@ =~= ""@);
                            assert(false);
                        } else {
                            assert(id.name@ == field@);
                            assert(id.ns@ =~= ""@);
                            assert(false);
                        }
                    }
                }
            }
            match deserializer.skip_element() {
                Ok(u) => {},
                Err(e) => {
                    return Err(e);
                },
            }
            proof {
                assert(deserializer.elements@ =~= base_elems);
                assert(deserializer.scope.frames@ =~= base_frames);
            }
        }
    }
    proof {
        reveal_strlit("");
        assert forall|t: Seq<char>|
            #[trigger] simple_record_tokens(rem0, root@, field@, t) && effective_default_of(
                frames0,
            ) == Seq::<char>::empty() implies first_sig(deserializer.remaining()) == 0 && (
        deserializer.remaining()[0] matches XmlToken::ElemClose { prefix, local } && prefix@
            == base_elems.last().prefix@ && local@ == base_elems.last().local@) by {
            assert(deserializer.remaining() =~= rem0.skip(6));
            assert(deserializer.remaining()[0] == rem0[6]);
            assert forall|pp: Seq<char>, qq: Seq<char>|
                pp.len() == 0 && qq.len() == 0 implies pp == qq by {
                assert(pp =~= qq);
            }
        }
    }
    match deserializer.exit_element() {
        Ok(u) => {},
        Err(e) => {
            return Err(e);
        },
    }
    proof {
        assert(deserializer.elements@ =~= old(deserializer).elements@);
        assert(deserializer.scope.frames@ =~= old(deserializer).scope.frames@);
    }
    match finalize_required(acc) {
        Ok(v) => Ok(v),
        Err(e) => {
            return Err(e);
        },
    }
}

/// What a single-string record binding returns on the token form of a
/// document it serializes: the decoded text itself, or the entity
/// error.
pub open spec fn string_record_outcome(t: Seq<char>, r: Result<String, Error>) -> bool {
    match decode_chars(t) {
        Ok(p) => r matches Ok(w) && w@ == p.0,
        Err(b) => r matches Err(Error::InvalidEntity(s)) && s@ == b,
    }
}

/// Reads `<root><field>text</field></root>` back for a string field:
/// like the scalar reader, with the decoded text itself the value.
#[verifier::rlimit(100)]
fn read_string_record(deserializer: &mut Deserializer, root: &str, field: &str) -> (r: Result<
    String,
    Error,
>)
    requires
        old(deserializer).wf(),
    ensures
        final(deserializer).wf(),
        final(deserializer).tokens == old(deserializer).tokens,
        r is Ok ==> final(deserializer).elements@ == old(deserializer).elements@ && final(deserializer).scope.frames@ == old(deserializer).scope.frames@,
        forall|t: Seq<char>|
            #[trigger] simple_record_tokens(old(deserializer).remaining(), root@, field@, t)
                && effective_default_of(old(deserializer).scope.frames@) == Seq::<char>::empty()
                ==> string_record_outcome(t, r),
{
    let ghost rem0 = old(deserializer).remaining();
    let ghost frames0 = old(deserializer).scope.frames@;
    let ghost pos0 = old(deserializer).pos as int;
    proof {
        reveal_strlit("");
        assert forall|t: Seq<char>|
            #[trigger] simple_record_tokens(rem0, root@, field@, t) && effective_default_of(
                frames0,
            ) == Seq::<char>::empty() implies first_sig(rem0) == 0 && enterable(rem0, frames0)
            && start_local(rem0) == root@ && start_ns(
            start_prefix(rem0),
            start_attrs(rem0),
            frames0,
        ) == Some(Seq::<char>::empty()) && start_len(rem0) == 2 && !start_empty(rem0)
            && run_default(start_attrs(rem0)) is None by {
            let run = rem0.drop_first();
            assert(run[0] == rem0[1]);
            assert(crate::de::attr_run_len(run) == 0);
            assert(start_attrs(rem0) =~= Seq::<XmlToken>::empty());
            assert(run_default(Seq::<XmlToken>::empty()) is None);
            assert(crate::de::decls_decode(Seq::<XmlToken>::empty()));
            assert(start_prefix(rem0).len() == 0);
        }
    }
    let expected = Id { ns: String::new(), name: root.to_owned() };
    match deserializer.enter_element(Some(&expected)) {
        Ok(u) => {},
        Err(e) => {
            proof {
                assert forall|t: Seq<char>|
                    !(#[trigger] simple_record_tokens(rem0, root@, field@, t)
                        && effective_default_of(frames0) == Seq::<char>::empty()) by {
                    if simple_record_tokens(rem0, root@, field@, t) && effective_default_of(
                        frames0,
                    ) == Seq::<char>::empty() {
                        assert(rem0.skip(0) =~= rem0);
                        assert(""@ =~= Seq::<char>::empty());
                    }
                }
            }
            return Err(e);
        },
    }
    let ghost base_elems = deserializer.elements@;
    let ghost base_frames = deserializer.scope.frames@;
    proof {
        assert forall|t: Seq<char>|
            #[trigger] simple_record_tokens(rem0, root@, field@, t) && effective_default_of(
                frames0,
            ) == Seq::<char>::empty() implies deserializer.pos == pos0 + 2 && !base_elems.last().empty && base_elems.last().ns@ =~= Seq::<char>::empty() && base_elems.last().local@
            == root@ && base_elems.last().prefix@.len() == 0 && effective_default_of(base_frames)
            =~= Seq::<char>::empty() by {
            assert(rem0.skip(0) =~= rem0);
        }
    }
    let mut acc: Option<String> = None;
    loop
        invariant
            deserializer.wf(),
            deserializer.tokens == old(deserializer).tokens,
            deserializer.elements@ == base_elems,
            deserializer.scope.frames@ == base_frames,
            base_elems.len() > 0,
            base_elems.drop_last() == old(deserializer).elements@,
            base_frames.drop_last() == old(deserializer).scope.frames@,
            rem0 == old(deserializer).remaining(),
            frames0 == old(deserializer).scope.frames@,
            pos0 == old(deserializer).pos,
            forall|t: Seq<char>|
                #[trigger] simple_record_tokens(rem0, root@, field@, t) && effective_default_of(
                    frames0,
                ) == Seq::<char>::empty() ==> ((deserializer.pos == pos0 + 2 && acc is None) || (
                deserializer.pos == pos0 + 6 && (decode_chars(t) matches Ok(p)
                    && (acc matches Some(w) && w@ == p.0)))),
            forall|t: Seq<char>|
                #[trigger] simple_record_tokens(rem0, root@, field@, t) && effective_default_of(
                    frames0,
                ) == Seq::<char>::empty() ==> (!base_elems.last().empty && base_elems.last().ns@
                =~= Seq::<char>::empty() && base_elems.last().local@ == root@
                && base_elems.last().prefix@.len() == 0 && effective_default_of(base_frames) =~= Seq::<char>::empty()),
        ensures
            forall|t: Seq<char>|
                #[trigger] simple_record_tokens(rem0, root@, field@, t) && effective_default_of(
                    frames0,
                ) == Seq::<char>::empty() ==> (deserializer.pos == pos0 + 6 && (decode_chars(t)
                    matches Ok(p) && (acc matches Some(w) && w@ == p.0))),
        decreases deserializer.tokens@.len() - deserializer.pos,
    {
        let ghost pre_loop = *deserializer;
        proof {
            reveal_strlit("");
            assert forall|t: Seq<char>|
                #[trigger] simple_record_tokens(rem0, root@, field@, t) && effective_default_of(
                    frames0,
                ) == Seq::<char>::empty() && deserializer.pos == pos0 + 2 implies enterable(
                deserializer.remaining(),
                base_frames,
            ) && first_sig(deserializer.remaining()) == 0 && start_local(deserializer.remaining())
                == field@ && start_len(deserializer.remaining()) == 2 && !start_empty(
                deserializer.remaining(),
            ) && start_ns(
                start_prefix(deserializer.remaining()),
                start_attrs(deserializer.remaining()),
                base_frames,
            ) == Some(Seq::<char>::empty()) by {
                let remc = deserializer.remaining();
                assert(remc =~= rem0.skip(2));
                assert(remc[0] == rem0[2] && remc[1] == rem0[3]);
                let runc = remc.drop_first();
                assert(runc[0] == remc[1]);
                assert(crate::de::attr_run_len(runc) == 0);
                assert(start_attrs(remc) =~= Seq::<XmlToken>::empty());
                assert(run_default(Seq::<XmlToken>::empty()) is None);
                assert(crate::de::decls_decode(Seq::<XmlToken>::empty()));
            }
        }
        let more = match deserializer.next_child() {
            Ok(b) => b,
            Err(e) => {
                proof {
                    assert forall|t: Seq<char>|
                        !(#[trigger] simple_record_tokens(rem0, root@, field@, t)
                            && effective_default_of(frames0) == Seq::<char>::empty()) by {
                        if simple_record_tokens(rem0, root@, field@, t) && effective_default_of(
                            frames0,
                        ) == Seq::<char>::empty() {
                            if pre_loop.pos == pos0 + 2 {
                            } else {
                                assert(pre_loop.remaining() =~= rem0.skip(6));
                                assert(pre_loop.remaining()[0] == rem0[6]);
                                assert(first_sig(pre_loop.remaining()) == 0);
                            }
                        }
                    }
                }
                return Err(e);
            },
        };
        if !more {
            proof {
                assert forall|t: Seq<char>|
                    #[trigger] simple_record_tokens(rem0, root@, field@, t)
                        && effective_default_of(frames0) == Seq::<char>::empty() implies (
                deserializer.pos == pos0 + 6 && (decode_chars(t) matches Ok(p)
                    && (acc matches Some(w) && w@ == p.0))) by {
                    if pre_loop.pos == pos0 + 2 && acc is None {
                        assert(false);
                    }
                }
            }
            break ;
        }
        let id = deserializer.current_id();
        let hit = str_eq(id.name.as_str(), field) && str_eq(id.ns.as_str(), "");
        if hit {
            let ghost pre_field = *deserializer;
            match deserialize_string(deserializer, &mut acc) {
                Ok(u) => {},
                Err(e) => {
                    proof {
                        assert forall|t: Seq<char>|
                            #[trigger] simple_record_tokens(rem0, root@, field@, t)
                                && effective_default_of(frames0) == Seq::<char>::empty() implies
                            string_record_outcome(t, Err(e)) by {
                            assert(pre_field.remaining() =~= rem0.skip(4));
                            assert(pre_field.remaining()[0] == rem0[4]);
                            assert(pre_field.remaining().drop_first() =~= rem0.skip(5));
                            assert(rem0.skip(5)[0] == rem0[5]);
                            assert(text_scan(rem0.skip(5), t, true) == Ok::<
                                (Seq<char>, bool, int),
                                Error,
                            >((t, true, 0)));
                            assert(Seq::<char>::empty() + t =~= t);
                        }
                    }
                    return Err(e);
                },
            }
            let ghost pre_exit = *deserializer;
            match deserializer.exit_element() {
                Ok(u) => {},
                Err(e) => {
                    proof {
                        assert forall|t: Seq<char>|
                            !(#[trigger] simple_record_tokens(rem0, root@, field@, t)
                                && effective_default_of(frames0) == Seq::<char>::empty()) by {
                            if simple_record_tokens(rem0, root@, field@, t)
                                && effective_default_of(frames0) == Seq::<char>::empty() {
                                assert(pre_field.pos == pos0 + 4);
                                assert(pre_field.remaining() =~= rem0.skip(4));
                                assert(pre_field.remaining()[0] == rem0[4]);
                                assert(pre_field.remaining().drop_first() =~= rem0.skip(5));
                                assert(rem0.skip(5)[0] == rem0[5]);
                                assert(text_scan(rem0.skip(5), t, true) == Ok::<
                                    (Seq<char>, bool, int),
                                    Error,
                                >((t, true, 0)));
                                assert(Seq::<char>::empty() + t =~= t);
                                assert(pre_exit.pos == pos0 + 5);
                                assert(pre_exit.remaining() =~= rem0.skip(5));
                                assert(pre_exit.remaining()[0] == rem0[5]);
                                assert(first_sig(pre_exit.remaining()) == 0);
                                assert(pre_exit.elements@.last().local@ == field@);
                                assert(pre_exit.elements@.last().prefix@ =~= (match rem0[5] {
                                    XmlToken::ElemClose { prefix, local } => prefix@,
                                    _ => Seq::<char>::empty(),
                                }));
                                assert(!pre_exit.elements@.last().empty);
                                assert(false);
                            }
                        }
                    }
                    return Err(e);
                },
            }
            proof {
                assert(deserializer.elements@ =~= base_elems);
                assert(deserializer.scope.frames@ =~= base_frames);
                assert forall|t: Seq<char>|
                    #[trigger] simple_record_tokens(rem0, root@, field@, t)
                        && effective_default_of(frames0) == Seq::<char>::empty() implies (
                deserializer.pos == pos0 + 6 && (decode_chars(t) matches Ok(p)
                    && (acc matches Some(w) && w@ == p.0))) by {
                    assert(pre_field.remaining() =~= rem0.skip(4));
                    assert(pre_field.remaining()[0] == rem0[4]);
                    assert(pre_field.remaining().drop_first() =~= rem0.skip(5));
                    assert(rem0.skip(5)[0] == rem0[5]);
                    assert(text_scan(rem0.skip(5), t, true) == Ok::<
                        (Seq<char>, bool, int),
                        Error,
                    >((t, true, 0)));
                    assert(Seq::<char>::empty() + t =~= t);
                }
            }
        } else {
            proof {
                assert forall|t: Seq<char>|
                    !(#[trigger] simple_record_tokens(rem0, root@, field@, t)
                        && effective_default_of(frames0) == Seq::<char>::empty()) by {
                    if simple_record_tokens(rem0, root@, field@, t) && effective_default_of(
                        frames0,
                    ) == Seq::<char>::empty() {
                        assert(""@ =~= Seq::<char>::empty());
                        if pre_loop.pos == pos0 + 2 {
                            assert(pre_loop.remaining() =~= rem0.skip(2));
                            assert(pre_loop.remaining()[0] == rem0[2]);
                            assert(first_sig(pre_loop.remaining()) == 0);
                            assert(id.name@ == field@);
                            assert(id.ns@ =~= ""@);
                            assert(false);
                        } else {
                            assert(pre_loop.remaining() =~= rem0.skip(6));
                            assert(pre_loop.remaining()[0] == rem0[6]);
                            assert(first_sig(pre_loop.remaining()) == 0);
                            assert(false);
                        }
                    }
                }
            }
            match deserializer.skip_element() {
                Ok(u) => {},
                Err(e) => {
                    return Err(e);
                },
            }
            proof {
                assert(deserializer.elements@ =~= base_elems);
                assert(deserializer.scope.frames@ =~= base_frames);
            }
        }
    }
    proof {
        reveal_strlit("");
        assert forall|t: Seq<char>|
            #[trigger] simple_record_tokens(rem0, root@, field@, t) && effective_default_of(
                frames0,
            ) == Seq::<char>::empty() implies first_sig(deserializer.remaining()) == 0 && (
        deserializer.remaining()[0] matches XmlToken::ElemClose { prefix, local } && prefix@
            == base_elems.last().prefix@ && local@ == base_elems.last().local@) by {
            assert(deserializer.remaining() =~= rem0.skip(6));
            assert(deserializer.remaining()[0] == rem0[6]);
            assert forall|pp: Seq<char>, qq: Seq<char>|
                pp.len() == 0 && qq.len() == 0 implies pp == qq by {
                assert(pp =~= qq);
            }
        }
    }
    match deserializer.exit_element() {
        Ok(u) => {},
        Err(e) => {
            return Err(e);
        },
    }
    proof {
        assert(deserializer.elements@ =~= old(deserializer).elements@);
        assert(deserializer.scope.frames@ =~= old(deserializer).scope.frames@);
    }
    match finalize_required(acc) {
        Ok(v) => Ok(v),
        Err(e) => {
            return Err(e);
        },
    }
}

impl Bar {
    /// The wire classification: `Bar` writes its own element.
    pub fn kind(&self) -> (r: Kind)
        ensures
            r matches Kind::Element(id) && id.ns@ == Seq::<char>::empty() && id.name@ == "Bar"@,
    {
        Kind::Element(Id { ns: String::new(), name: "Bar".to_owned() })
    }

    /// Writes the record: root tag, an empty scope frame, the scalar
    /// field wrapped per the emission policy, the close tag, and the
    /// frame popped.
    pub fn serialize(&self, serializer: &mut Serializer) -> (r: Result<(), Error>)
        ensures
            old(serializer).start_open ==> r == Err::<(), Error>(Error::UnexpectedState) && *final(serializer) == *old(serializer),
            !old(serializer).start_open ==> r is Ok && wraps_cleanly(
                *old(serializer),
                *final(serializer),
            ),
            !old(serializer).start_open && effective_default_of(old(serializer).scope.frames@)
                == Seq::<char>::empty() ==> final(serializer).output@ == old(serializer).output@
                + bar_xml(*self),
            !old(serializer).start_open && effective_default_of(old(serializer).scope.frames@)
                != Seq::<char>::empty() ==> final(serializer).output@ == old(serializer).output@
                + simple_record_reset_text("Bar"@, "bar"@, u64_text(self.bar as int)),
    {
        let text = u64_to_string(self.bar as u64);
        write_simple_record(serializer, "Bar", "bar", text.as_str())
    }

    /// Serializes into a fresh document.
    pub fn to_xml(&self) -> (r: Result<String, Error>)
        ensures
            r matches Ok(s) && s@ == bar_xml(*self),
    {
        let mut serializer = Serializer::new();
        match self.serialize(&mut serializer) {
            Ok(u) => {
                proof {
                    assert(serializer.output@ =~= bar_xml(*self));
                }
                Ok(serializer.output)
            },
            Err(e) => Err(e),
        }
    }

    /// Reads the record: its element entered and consumed, children
    /// named `bar` merged into a once-optional accumulator, unknown
    /// children skipped whole, a missing `bar` failing with
    /// `Error::MissingValue`. On the token form of a document the
    /// record serializes to, the result is exactly that record.
    pub fn deserialize(deserializer: &mut Deserializer) -> (r: Result<Bar, Error>)
        requires
            old(deserializer).wf(),
        ensures
            final(deserializer).wf(),
            final(deserializer).tokens == old(deserializer).tokens,
            r is Ok ==> final(deserializer).elements@ == old(deserializer).elements@ && final(deserializer).scope.frames@ == old(deserializer).scope.frames@,
            forall|v: Bar|
                #[trigger] simple_record_tokens(
                    old(deserializer).remaining(),
                    "Bar"@,
                    "bar"@,
                    encode_chars(u64_text(v.bar as int)),
                ) && effective_default_of(old(deserializer).scope.frames@)
                    == Seq::<char>::empty() ==> r == Ok::<Bar, Error>(v),
    {
        let rr = read_scalar_record::<u8>(deserializer, "Bar", "bar");
        proof {
            assert forall|v: Bar|
                #[trigger] simple_record_tokens(
                    old(deserializer).remaining(),
                    "Bar"@,
                    "bar"@,
                    encode_chars(u64_text(v.bar as int)),
                ) && effective_default_of(old(deserializer).scope.frames@)
                    == Seq::<char>::empty() implies rr == Ok::<u8, Error>(v.bar) by {
                crate::entity::lemma_decode_encode(u64_text(v.bar as int));
                crate::adapters::lemma_u8_text_parse(v.bar);
            }
        }
        match rr {
            Ok(b) => Ok(Bar { bar: b }),
            Err(e) => Err(e),
        }
    }

    /// Parses a whole document into the record: the lexer's outcome is
    /// a function of the input alone, a lexically broken document is
    /// `Error::Parse`, and on the token form of a serialized record the
    /// result is exactly that record.
    pub fn from_xml(input: &str) -> (r: Result<Bar, Error>)
        ensures
            tokens_of(input@) is None ==> r == Err::<Bar, Error>(Error::Parse),
            forall|v: Bar|
                tokens_of(input@) is Some && #[trigger] simple_record_tokens(
                    tokens_of(input@)->Some_0,
                    "Bar"@,
                    "bar"@,
                    encode_chars(u64_text(v.bar as int)),
                ) ==> r == Ok::<Bar, Error>(v),
    {
        match tokenize(input) {
            Ok(toks) => {
                let mut de = Deserializer::new(toks);
                proof {
                    assert(de.remaining() =~= toks@);
                    assert(effective_default_of(de.scope.frames@) =~= Seq::<char>::empty());
                }
                Bar::deserialize(&mut de)
            },
            Err(e) => Err(e),
        }
    }
}

impl Baz {
    /// The wire classification: `Baz` writes its own element.
    pub fn kind(&self) -> (r: Kind)
        ensures
            r matches Kind::Element(id) && id.ns@ == Seq::<char>::empty() && id.name@ == "Baz"@,
    {
        Kind::Element(Id { ns: String::new(), name: "Baz".to_owned() })
    }

    /// Writes the record, its string field entity-encoded.
    pub fn serialize(&self, serializer: &mut Serializer) -> (r: Result<(), Error>)
        ensures
            old(serializer).start_open ==> r == Err::<(), Error>(Error::UnexpectedState) && *final(serializer) == *old(serializer),
            !old(serializer).start_open ==> r is Ok && wraps_cleanly(
                *old(serializer),
                *final(serializer),
            ),
            !old(serializer).start_open && effective_default_of(old(serializer).scope.frames@)
                == Seq::<char>::empty() ==> final(serializer).output@ == old(serializer).output@
                + baz_xml(*self),
            !old(serializer).start_open && effective_default_of(old(serializer).scope.frames@)
                != Seq::<char>::empty() ==> final(serializer).output@ == old(serializer).output@
                + simple_record_reset_text("Baz"@, "baz"@, self.baz@),
    {
        write_simple_record(serializer, "Baz", "baz", self.baz.as_str())
    }

    /// Serializes into a fresh document.
    pub fn to_xml(&self) -> (r: Result<String, Error>)
        ensures
            r matches Ok(s) && s@ == baz_xml(*self),
    {
        let mut serializer = Serializer::new();
        match self.serialize(&mut serializer) {
            Ok(u) => {
                proof {
                    assert(serializer.output@ =~= baz_xml(*self));
                }
                Ok(serializer.output)
            },
            Err(e) => Err(e),
        }
    }

    /// Reads the record: like `Bar`, with the string adapter. On the
    /// token form of a document the record serializes to, the result
    /// holds exactly the decoded string.
    pub fn deserialize(deserializer: &mut Deserializer) -> (r: Result<Baz, Error>)
        requires
            old(deserializer).wf(),
        ensures
            final(deserializer).wf(),
            final(deserializer).tokens == old(deserializer).tokens,
            r is Ok ==> final(deserializer).elements@ == old(deserializer).elements@ && final(deserializer).scope.frames@ == old(deserializer).scope.frames@,
            forall|t: Seq<char>|
                #[trigger] simple_record_tokens(old(deserializer).remaining(), "Baz"@, "baz"@, t)
                    && effective_default_of(old(deserializer).scope.frames@)
                    == Seq::<char>::empty() ==> match decode_chars(t) {
                    Ok(p) => r matches Ok(z) && z.baz@ == p.0,
                    Err(b) => r matches Err(Error::InvalidEntity(s)) && s@ == b,
                },
            forall|v: Baz|
                #[trigger] simple_record_tokens(
                    old(deserializer).remaining(),
                    "Baz"@,
                    "baz"@,
                    encode_chars(v.baz@),
                ) && effective_default_of(old(deserializer).scope.frames@)
                    == Seq::<char>::empty() ==> (r matches Ok(z) && z.baz@ == v.baz@),
    {
        let rr = read_string_record(deserializer, "Baz", "baz");
        proof {
            assert forall|v: Baz|
                #[trigger] simple_record_tokens(
                    old(deserializer).remaining(),
                    "Baz"@,
                    "baz"@,
                    encode_chars(v.baz@),
                ) && effective_default_of(old(deserializer).scope.frames@)
                    == Seq::<char>::empty() implies (rr matches Ok(w) && w@ == v.baz@) by {
                crate::entity::lemma_decode_encode(v.baz@);
            }
        }
        match rr {
            Ok(w) => Ok(Baz { baz: w }),
            Err(e) => Err(e),
        }
    }

    /// Parses a whole document into the record: a lexically broken
    /// document is `Error::Parse`, and on the token form of a
    /// serialized record the result holds exactly the written string.
    pub fn from_xml(input: &str) -> (r: Result<Baz, Error>)
        ensures
            tokens_of(input@) is None ==> r == Err::<Baz, Error>(Error::Parse),
            forall|v: Baz|
                tokens_of(input@) is Some && #[trigger] simple_record_tokens(
                    tokens_of(input@)->Some_0,
                    "Baz"@,
                    "baz"@,
                    encode_chars(v.baz@),
                ) ==> (r matches Ok(z) && z.baz@ == v.baz@),
    {
        match tokenize(input) {
            Ok(toks) => {
                let mut de = Deserializer::new(toks);
                proof {
                    assert(de.remaining() =~= toks@);
                    assert(effective_default_of(de.scope.frames@) =~= Seq::<char>::empty());
                }
                Baz::deserialize(&mut de)
            },
            Err(e) => Err(e),
        }
    }
}

impl Foo {
    /// Writes the active alternative; a forwarding container adds no
    /// wrapper of its own.
    pub fn serialize(&self, serializer: &mut Serializer) -> (r: Result<(), Error>)
        ensures
            old(serializer).start_open ==> r == Err::<(), Error>(Error::UnexpectedState) && *final(serializer) == *old(serializer),
            !old(serializer).start_open ==> r is Ok && wraps_cleanly(
                *old(serializer),
                *final(serializer),
            ),
            !old(serializer).start_open && effective_default_of(old(serializer).scope.frames@)
                == Seq::<char>::empty() ==> final(serializer).output@ == old(serializer).output@
                + foo_xml(*self),
    {
        match self {
            Foo::Bar(b) => b.serialize(serializer),
            Foo::Baz(z) => z.serialize(serializer),
        }
    }

    /// Serializes into a fresh document.
    pub fn to_xml(&self) -> (r: Result<String, Error>)
        ensures
            r matches Ok(s) && s@ == foo_xml(*self),
    {
        let mut serializer = Serializer::new();
        match self.serialize(&mut serializer) {
            Ok(u) => {
                proof {
                    assert(serializer.output@ =~= foo_xml(*self));
                }
                Ok(serializer.output)
            },
            Err(e) => Err(e),
        }
    }

    /// Trial dispatch: peeks the next element's name, selects the
    /// alternative it announces, and reads it; any other name fails
    /// with `Error::UnexpectedTag`. On the token form of a document a
    /// variant serializes to, the result is that variant.
    pub fn deserialize(deserializer: &mut Deserializer) -> (r: Result<Foo, Error>)
        requires
            old(deserializer).wf(),
        ensures
            final(deserializer).wf(),
            final(deserializer).tokens == old(deserializer).tokens,
            r is Ok ==> final(deserializer).elements@ == old(deserializer).elements@ && final(deserializer).scope.frames@ == old(deserializer).scope.frames@,
            forall|v: Bar|
                #[trigger] simple_record_tokens(
                    old(deserializer).remaining(),
                    "Bar"@,
                    "bar"@,
                    encode_chars(u64_text(v.bar as int)),
                ) && effective_default_of(old(deserializer).scope.frames@)
                    == Seq::<char>::empty() ==> r == Ok::<Foo, Error>(Foo::Bar(v)),
            forall|v: Baz|
                #[trigger] simple_record_tokens(
                    old(deserializer).remaining(),
                    "Baz"@,
                    "baz"@,
                    encode_chars(v.baz@),
                ) && effective_default_of(old(deserializer).scope.frames@)
                    == Seq::<char>::empty() ==> (r matches Ok(f) && f matches Foo::Baz(z)
                && z.baz@ == v.baz@),
            old(deserializer).pos + first_sig(old(deserializer).remaining()) < old(deserializer).tokens@.len() && (old(deserializer).tokens@[old(deserializer).pos + first_sig(
                old(deserializer).remaining(),
            )] matches XmlToken::ElemStart { prefix, local } && local@ != "Bar"@ && local@
                != "Baz"@) ==> r == Err::<Foo, Error>(Error::UnexpectedTag),
    {
        let ghost rem0 = old(deserializer).remaining();
        proof {
            reveal_strlit("Bar");
            reveal_strlit("Baz");
            assert("Bar"@.len() == 3 && "Baz"@.len() == 3 && "Bar"@[2] != "Baz"@[2]);
        }
        let name = match deserializer.peek_element_name() {
            Ok(n) => n,
            Err(e) => {
                proof {
                    assert forall|v: Bar|
                        !(#[trigger] simple_record_tokens(
                            rem0,
                            "Bar"@,
                            "bar"@,
                            encode_chars(u64_text(v.bar as int)),
                        ) && effective_default_of(old(deserializer).scope.frames@)
                            == Seq::<char>::empty()) by {
                        if simple_record_tokens(
                            rem0,
                            "Bar"@,
                            "bar"@,
                            encode_chars(u64_text(v.bar as int)),
                        ) {
                            assert(first_sig(rem0) == 0);
                        }
                    }
                    assert forall|v: Baz|
                        !(#[trigger] simple_record_tokens(
                            rem0,
                            "Baz"@,
                            "baz"@,
                            encode_chars(v.baz@),
                        ) && effective_default_of(old(deserializer).scope.frames@)
                            == Seq::<char>::empty()) by {
                        if simple_record_tokens(rem0, "Baz"@, "baz"@, encode_chars(v.baz@)) {
                            assert(first_sig(rem0) == 0);
                        }
                    }
                }
                return Err(e);
            },
        };
        if str_eq(name.as_str(), "Bar") {
            match Bar::deserialize(deserializer) {
                Ok(b) => Ok(Foo::Bar(b)),
                Err(e) => Err(e),
            }
        } else if str_eq(name.as_str(), "Baz") {
            match Baz::deserialize(deserializer) {
                Ok(z) => Ok(Foo::Baz(z)),
                Err(e) => Err(e),
            }
        } else {
            Err(Error::UnexpectedTag)
        }
    }

    /// Parses a whole document into the variant: a lexically broken
    /// document is `Error::Parse`; the token form of a serialized
    /// alternative yields that alternative; a root naming no
    /// alternative is `Error::UnexpectedTag`.
    pub fn from_xml(input: &str) -> (r: Result<Foo, Error>)
        ensures
            tokens_of(input@) is None ==> r == Err::<Foo, Error>(Error::Parse),
            forall|v: Bar|
                tokens_of(input@) is Some && #[trigger] simple_record_tokens(
                    tokens_of(input@)->Some_0,
                    "Bar"@,
                    "bar"@,
                    encode_chars(u64_text(v.bar as int)),
                ) ==> r == Ok::<Foo, Error>(Foo::Bar(v)),
            forall|v: Baz|
                tokens_of(input@) is Some && #[trigger] simple_record_tokens(
                    tokens_of(input@)->Some_0,
                    "Baz"@,
                    "baz"@,
                    encode_chars(v.baz@),
                ) ==> (r matches Ok(f) && f matches Foo::Baz(z) && z.baz@ == v.baz@),
            tokens_of(input@) matches Some(ts) ==> ((first_sig(ts) < ts.len() && (ts[first_sig(
                ts,
            )] matches XmlToken::ElemStart { prefix, local } && local@ != "Bar"@ && local@
                != "Baz"@)) ==> r == Err::<Foo, Error>(Error::UnexpectedTag)),
    {
        match tokenize(input) {
            Ok(toks) => {
                let mut de = Deserializer::new(toks);
                proof {
                    assert(de.remaining() =~= toks@);
                    assert(effective_default_of(de.scope.frames@) =~= Seq::<char>::empty());
                }
                Foo::deserialize(&mut de)
            },
            Err(e) => Err(e),
        }
    }
}


/// A record with one required once-optional scalar field: element `r`
/// with child `x`. Its reading shows duplicate detection: a second `x`
/// is `Error::DuplicateValue`.
#[derive(Debug, PartialEq, Eq)]
pub struct OneField {
    pub x: u32,
}

/// The document `OneField` serializes to.
pub open spec fn onefield_xml(v: OneField) -> Seq<char> {
    simple_record_text("r"@, "x"@, u64_text(v.x as int))
}

impl OneField {
    /// Writes the record.
    pub fn serialize(&self, serializer: &mut Serializer) -> (r: Result<(), Error>)
        ensures
            old(serializer).start_open ==> r == Err::<(), Error>(Error::UnexpectedState) && *final(serializer) == *old(serializer),
            !old(serializer).start_open ==> r is Ok && wraps_cleanly(
                *old(serializer),
                *final(serializer),
            ),
            !old(serializer).start_open && effective_default_of(old(serializer).scope.frames@)
                == Seq::<char>::empty() ==> final(serializer).output@ == old(serializer).output@
                + onefield_xml(*self),
            !old(serializer).start_open && effective_default_of(old(serializer).scope.frames@)
                != Seq::<char>::empty() ==> final(serializer).output@ == old(serializer).output@
                + simple_record_reset_text("r"@, "x"@, u64_text(self.x as int)),
    {
        let text = u64_to_string(self.x as u64);
        write_simple_record(serializer, "r", "x", text.as_str())
    }

    /// Serializes into a fresh document.
    pub fn to_xml(&self) -> (r: Result<String, Error>)
        ensures
            r matches Ok(s) && s@ == onefield_xml(*self),
    {
        let mut serializer = Serializer::new();
        match self.serialize(&mut serializer) {
            Ok(u) => {
                proof {
                    assert(serializer.output@ =~= onefield_xml(*self));
                }
                Ok(serializer.output)
            },
            Err(e) => Err(e),
        }
    }

    /// Reads the record: children named `x` merge into a once-optional
    /// accumulator (a second one is `Error::DuplicateValue`), unknown
    /// children are skipped whole, and a missing `x` is
    /// `Error::MissingValue`. On the token form of a document the
    /// record serializes to, the result is exactly that record.
    pub fn deserialize(deserializer: &mut Deserializer) -> (r: Result<OneField, Error>)
        requires
            old(deserializer).wf(),
        ensures
            final(deserializer).wf(),
            final(deserializer).tokens == old(deserializer).tokens,
            r is Ok ==> final(deserializer).elements@ == old(deserializer).elements@ && final(deserializer).scope.frames@ == old(deserializer).scope.frames@,
            forall|v: OneField|
                #[trigger] simple_record_tokens(
                    old(deserializer).remaining(),
                    "r"@,
                    "x"@,
                    encode_chars(u64_text(v.x as int)),
                ) && effective_default_of(old(deserializer).scope.frames@)
                    == Seq::<char>::empty() ==> r == Ok::<OneField, Error>(v),
            forall|t1: Seq<char>|
                #[trigger] dup_record_tokens(old(deserializer).remaining(), "r"@, "x"@, t1)
                    && effective_default_of(old(deserializer).scope.frames@)
                    == Seq::<char>::empty() && (decode_chars(t1) matches Ok(p) && <u32 as XmlScalar>::from_text_spec(p.0) is Some) ==> r == Err::<OneField, Error>(
                    Error::DuplicateValue,
                ),
    {
        let rr = read_scalar_record::<u32>(deserializer, "r", "x");
        proof {
            assert forall|v: OneField|
                #[trigger] simple_record_tokens(
                    old(deserializer).remaining(),
                    "r"@,
                    "x"@,
                    encode_chars(u64_text(v.x as int)),
                ) && effective_default_of(old(deserializer).scope.frames@)
                    == Seq::<char>::empty() implies rr == Ok::<u32, Error>(v.x) by {
                crate::entity::lemma_decode_encode(u64_text(v.x as int));
                crate::adapters::lemma_u32_text_parse(v.x);
            }
        }
        match rr {
            Ok(x) => Ok(OneField { x }),
            Err(e) => Err(e),
        }
    }

    /// Parses a whole document into the record: a lexically broken
    /// document is `Error::Parse`, and on the token form of a
    /// serialized record the result is exactly that record.
    pub fn from_xml(input: &str) -> (r: Result<OneField, Error>)
        ensures
            tokens_of(input@) is None ==> r == Err::<OneField, Error>(Error::Parse),
            forall|v: OneField|
                tokens_of(input@) is Some && #[trigger] simple_record_tokens(
                    tokens_of(input@)->Some_0,
                    "r"@,
                    "x"@,
                    encode_chars(u64_text(v.x as int)),
                ) ==> r == Ok::<OneField, Error>(v),
            forall|t1: Seq<char>|
                tokens_of(input@) is Some && #[trigger] dup_record_tokens(
                    tokens_of(input@)->Some_0,
                    "r"@,
                    "x"@,
                    t1,
                ) && (decode_chars(t1) matches Ok(p) && <u32 as XmlScalar>::from_text_spec(p.0)
                    is Some) ==> r == Err::<OneField, Error>(Error::DuplicateValue),
    {
        match tokenize(input) {
            Ok(toks) => {
                let mut de = Deserializer::new(toks);
                proof {
                    assert(de.remaining() =~= toks@);
                    assert(effective_default_of(de.scope.frames@) =~= Seq::<char>::empty());
                }
                OneField::deserialize(&mut de)
            },
            Err(e) => Err(e),
        }
    }
}

/// A record with one sequence field: element `r` whose `x` children
/// accumulate in order; no occurrences yield the empty sequence.
#[derive(Debug, PartialEq, Eq)]
pub struct ManyField {
    pub xs: Vec<u32>,
}

/// One `<x>` item of the sequence.
pub open spec fn many_item_text(n: u32) -> Seq<char> {
    seq!['<'] + "x"@ + seq!['>'] + encode_chars(u64_text(n as int)) + seq!['<', '/'] + "x"@
        + seq!['>']
}

/// The items of the sequence, in order.
pub open spec fn many_items_text(ts: Seq<u32>) -> Seq<char>
    decreases ts.len(),
{
    if ts.len() == 0 {
        Seq::empty()
    } else {
        many_item_text(ts[0]) + many_items_text(ts.drop_first())
    }
}

/// The document `ManyField` serializes to.
pub open spec fn manyfield_xml(v: ManyField) -> Seq<char> {
    seq!['<'] + "r"@ + seq!['>'] + many_items_text(v.xs@) + seq!['<', '/'] + "r"@ + seq!['>']
}

proof fn lemma_many_push(ts: Seq<u32>, v: u32)
    ensures
        many_items_text(ts.push(v)) == many_items_text(ts) + many_item_text(v),
    decreases ts.len(),
{
    let sp = ts.push(v);
    if ts.len() == 0 {
        assert(sp[0] == v);
        assert(sp.drop_first() =~= Seq::<u32>::empty());
        assert(many_items_text(Seq::<u32>::empty()) == Seq::<char>::empty());
        assert(many_item_text(v) + Seq::<char>::empty() =~= many_item_text(v));
        assert(Seq::<char>::empty() + many_item_text(v) =~= many_item_text(v));
    } else {
        assert(sp[0] == ts[0]);
        assert(sp.drop_first() =~= ts.drop_first().push(v));
        lemma_many_push(ts.drop_first(), v);
        assert(many_items_text(sp) == many_item_text(ts[0]) + (many_items_text(ts.drop_first())
            + many_item_text(v)));
        assert(many_item_text(ts[0]) + (many_items_text(ts.drop_first()) + many_item_text(v)) =~= (
        many_item_text(ts[0]) + many_items_text(ts.drop_first())) + many_item_text(v));
    }
}

impl ManyField {
    /// Writes the record: the root tag, one `<x>` element per item in
    /// order, the close tag.
    pub fn serialize(&self, serializer: &mut Serializer) -> (r: Result<(), Error>)
        ensures
            old(serializer).start_open ==> r == Err::<(), Error>(Error::UnexpectedState) && *final(serializer) == *old(serializer),
            !old(serializer).start_open ==> r is Ok && wraps_cleanly(
                *old(serializer),
                *final(serializer),
            ),
            !old(serializer).start_open && effective_default_of(old(serializer).scope.frames@)
                == Seq::<char>::empty() ==> final(serializer).output@ == old(serializer).output@
                + manyfield_xml(*self),
    {
        if serializer.start_open {
            return Err(Error::UnexpectedState);
        }
        let ghost pre = serializer.output@;
        let ghost frames0 = serializer.scope.frames@;
        let eff = serializer.default_ns();
        let res = if str_eq(eff.as_str(), "") {
            serializer.write_start(None, "r", None)
        } else {
            serializer.write_start(None, "r", Some(""))
        };
        match res {
            Ok(u) => {},
            Err(e) => {
                return Err(e);
            },
        }
        let ghost o1 = serializer.output@;
        let frame = Frame { default_ns: String::new(), bindings: Vec::new() };
        let ghost gframe = frame;
        let tok = match serializer.push(frame) {
            Ok(t) => t,
            Err(e) => {
                return Err(e);
            },
        };
        let ghost o2 = serializer.output@;
        match serializer.end_start() {
            Ok(u) => {},
            Err(e) => {
                return Err(e);
            },
        }
        let ghost o3 = serializer.output@;
        let ghost frames1 = serializer.scope.frames@;
        let n = self.xs.len();
        let mut i: usize = 0;
        proof {
            assert(many_items_text(self.xs@.take(0)) =~= Seq::<char>::empty());
            assert(serializer.output@ =~= o3 + many_items_text(self.xs@.take(0)));
        }
        while i < n
            invariant
                i <= n,
                n == self.xs@.len(),
                serializer.output@ == o3 + many_items_text(self.xs@.take(i as int)),
                serializer.start_open == false,
                serializer.scope.frames@ == frames1,
                frames1 == frames0.push(gframe),
                gframe.default_ns@ == Seq::<char>::empty(),
                gframe.bindings@.len() == 0,
                serializer.parent_default_namespace == old(serializer).parent_default_namespace,
                serializer.parent_default_namespace_to_revert == old(
                    serializer,
                ).parent_default_namespace_to_revert,
                serializer.current_attributes == old(serializer).current_attributes,
                serializer.next_field_context == old(serializer).next_field_context,
            decreases n - i,
        {
            let text = u64_to_string(self.xs[i] as u64);
            let id = Id { ns: String::new(), name: "x".to_owned() };
            match display_to_xml(text.as_str(), Some(&id), serializer) {
                Ok(u) => {},
                Err(e) => {
                    return Err(e);
                },
            }
            proof {
                assert(effective_default_of(frames1) =~= Seq::<char>::empty());
                assert(self.xs@.take(i + 1 as int) =~= self.xs@.take(i as int).push(
                    self.xs@[i as int],
                ));
                lemma_many_push(self.xs@.take(i as int), self.xs@[i as int]);
                assert(serializer.output@ =~= o3 + many_items_text(self.xs@.take(i + 1 as int)));
            }
            i = i + 1;
        }
        proof {
            assert(self.xs@.take(n as int) =~= self.xs@);
        }
        match serializer.write_close(None, "r") {
            Ok(u) => {},
            Err(e) => {
                return Err(e);
            },
        }
        serializer.pop(tok);
        proof {
            assert(serializer.scope.frames@ =~= frames0);
            reveal_strlit("");
            if effective_default_of(frames0) == Seq::<char>::empty() {
                assert(""@ =~= Seq::<char>::empty());
                assert(o1 =~= pre + seq!['<'] + "r"@);
                assert(o2 =~= o1);
                assert(o3 =~= o2 + seq!['>']);
                assert(serializer.output@ =~= pre + manyfield_xml(*self));
            }
        }
        Ok(())
    }

    /// Serializes into a fresh document.
    pub fn to_xml(&self) -> (r: Result<String, Error>)
        ensures
            r matches Ok(s) && s@ == manyfield_xml(*self),
    {
        let mut serializer = Serializer::new();
        match self.serialize(&mut serializer) {
            Ok(u) => {
                proof {
                    assert(serializer.output@ =~= manyfield_xml(*self));
                }
                Ok(serializer.output)
            },
            Err(e) => Err(e),
        }
    }

    /// Reads the record: every child named `x` appends one occurrence,
    /// in document order; no occurrences leave the sequence empty;
    /// unknown children are skipped whole.
    pub fn deserialize(deserializer: &mut Deserializer) -> (r: Result<ManyField, Error>)
        requires
            old(deserializer).wf(),
        ensures
            final(deserializer).wf(),
            final(deserializer).tokens == old(deserializer).tokens,
            r is Ok ==> final(deserializer).elements@ == old(deserializer).elements@ && final(deserializer).scope.frames@ == old(deserializer).scope.frames@,
            old(deserializer).remaining().len() >= 2 && (old(deserializer).remaining()[0] matches
            XmlToken::ElemStart { prefix, local } && prefix@.len() == 0 && local@ == "r"@) && old(deserializer).remaining()[1] is StartCloseEmpty && effective_default_of(
                old(deserializer).scope.frames@,
            ) == Seq::<char>::empty() ==> (r matches Ok(m) && m.xs@.len() == 0),
    {
        let ghost rem0 = old(deserializer).remaining();
        let ghost hm = rem0.len() >= 2 && (rem0[0] matches XmlToken::ElemStart { prefix, local }
            && prefix@.len() == 0 && local@ == "r"@) && rem0[1] is StartCloseEmpty
            && effective_default_of(old(deserializer).scope.frames@) == Seq::<char>::empty();
        proof {
            reveal_strlit("");
            if hm {
                let run = rem0.drop_first();
                assert(run[0] == rem0[1]);
                assert(crate::de::attr_run_len(run) == 0);
                assert(start_attrs(rem0) =~= Seq::<XmlToken>::empty());
                assert(run_default(Seq::<XmlToken>::empty()) is None);
                assert(crate::de::decls_decode(Seq::<XmlToken>::empty()));
                assert(first_sig(rem0) == 0);
                assert(rem0.skip(0) =~= rem0);
                assert(enterable(rem0, old(deserializer).scope.frames@));
                assert(""@ =~= Seq::<char>::empty());
                assert(start_empty(rem0));
            }
        }
        let expected = Id { ns: String::new(), name: "r".to_owned() };
        match deserializer.enter_element(Some(&expected)) {
            Ok(u) => {},
            Err(e) => {
                proof {
                    assert(!hm);
                }
                return Err(e);
            },
        }
        let ghost base_elems = deserializer.elements@;
        let ghost base_frames = deserializer.scope.frames@;
        let mut xs: Vec<u32> = Vec::new();
        loop
            invariant
                deserializer.wf(),
                deserializer.tokens == old(deserializer).tokens,
                deserializer.elements@ == base_elems,
                deserializer.scope.frames@ == base_frames,
                base_elems.len() > 0,
                base_elems.drop_last() == old(deserializer).elements@,
                base_frames.drop_last() == old(deserializer).scope.frames@,
                hm ==> base_elems.last().empty && xs@.len() == 0,
                rem0 == old(deserializer).remaining(),
                hm == (rem0.len() >= 2 && (rem0[0] matches XmlToken::ElemStart { prefix, local }
                    && prefix@.len() == 0 && local@ == "r"@) && rem0[1] is StartCloseEmpty
                    && effective_default_of(old(deserializer).scope.frames@)
                    == Seq::<char>::empty()),
            ensures
                hm ==> xs@.len() == 0,
            decreases deserializer.tokens@.len() - deserializer.pos,
        {
            let more = match deserializer.next_child() {
                Ok(b) => b,
                Err(e) => {
                    proof {
                        assert(!hm);
                    }
                    return Err(e);
                },
            };
            if !more {
                break ;
            }
            proof {
                assert(!hm);
            }
            let id = deserializer.current_id();
            let hit = str_eq(id.name.as_str(), "x") && str_eq(id.ns.as_str(), "");
            if hit {
                let mut slot: Option<u32> = None;
                match from_xml_str::<u32>(deserializer, &mut slot) {
                    Ok(u) => {},
                    Err(e) => {
                        return Err(e);
                    },
                }
                match deserializer.exit_element() {
                    Ok(u) => {},
                    Err(e) => {
                        return Err(e);
                    },
                }
                match slot {
                    Some(v) => {
                        xs.push(v);
                    },
                    None => {
                        return Err(Error::MissingValue);
                    },
                }
            } else {
                match deserializer.skip_element() {
                    Ok(u) => {},
                    Err(e) => {
                        return Err(e);
                    },
                }
            }
            proof {
                assert(deserializer.elements@ =~= base_elems);
                assert(deserializer.scope.frames@ =~= base_frames);
            }
        }
        match deserializer.exit_element() {
            Ok(u) => {},
            Err(e) => {
                proof {
                    assert(!hm);
                }
                return Err(e);
            },
        }
        proof {
            assert(deserializer.elements@ =~= old(deserializer).elements@);
            assert(deserializer.scope.frames@ =~= old(deserializer).scope.frames@);
        }
        Ok(ManyField { xs })
    }

    /// Parses a whole document into the record: a lexically broken
    /// document is `Error::Parse`, and a self-closing root yields the
    /// empty sequence.
    pub fn from_xml(input: &str) -> (r: Result<ManyField, Error>)
        ensures
            tokens_of(input@) is None ==> r == Err::<ManyField, Error>(Error::Parse),
            tokens_of(input@) matches Some(ts) ==> ((ts.len() >= 2 && (ts[0] matches
            XmlToken::ElemStart { prefix, local } && prefix@.len() == 0 && local@ == "r"@)
                && ts[1] is StartCloseEmpty) ==> (r matches Ok(m) && m.xs@.len() == 0)),
    {
        match tokenize(input) {
            Ok(toks) => {
                let mut de = Deserializer::new(toks);
                proof {
                    assert(de.remaining() =~= toks@);
                    assert(effective_default_of(de.scope.frames@) =~= Seq::<char>::empty());
                }
                ManyField::deserialize(&mut de)
            },
            Err(e) => Err(e),
        }
    }
}


/// A record whose container declares two prefixes (`bar` for `BAZ`,
/// `foo` for `BAR`) and whose fields use the emission policy three
/// ways: `flag` sits in the empty default namespace, `string` resolves
/// to the declared prefix `bar`, and `number` carries a namespace no
/// prefix declares, so its wrapper gets an inline declaration.
#[derive(Debug, PartialEq, Eq)]
pub struct StructWithNamedFields {
    pub flag: bool,
    pub string: String,
    pub number: i32,
}

/// The document `StructWithNamedFields` serializes to.
pub open spec fn swnf_xml(v: StructWithNamedFields) -> Seq<char> {
    seq!['<'] + "StructWithNamedFields"@ + prefix_decl_text("bar"@, "BAZ"@) + prefix_decl_text(
        "foo"@,
        "BAR"@,
    ) + seq!['>'] + (seq!['<'] + "flag"@ + seq!['>'] + bool_text(v.flag) + seq!['<', '/'] + "flag"@
        + seq!['>']) + (seq!['<'] + "bar"@ + seq![':'] + "string"@ + seq!['>'] + encode_chars(
        v.string@,
    ) + seq!['<', '/'] + "bar"@ + seq![':'] + "string"@ + seq!['>']) + (seq!['<'] + "number"@
        + xmlns_decl_text("typo"@) + seq!['>'] + int_text(v.number as int) + seq!['<', '/']
        + "number"@ + seq!['>']) + seq!['<', '/'] + "StructWithNamedFields"@ + seq!['>']
}


#[verifier::rlimit(100)]
proof fn lemma_swnf_assemble(
    v: StructWithNamedFields,
    pre: Seq<char>,
    o1: Seq<char>,
    o2: Seq<char>,
    o3: Seq<char>,
    o4: Seq<char>,
    o5: Seq<char>,
    o6: Seq<char>,
    out: Seq<char>,
)
    requires
        o1 == pre + seq!['<'] + "StructWithNamedFields"@,
        o2 == o1 + prefix_decl_text("bar"@, "BAZ"@) + prefix_decl_text("foo"@, "BAR"@),
        o3 == o2 + seq!['>'],
        o4 == o3 + seq!['<'] + "flag"@ + seq!['>'] + bool_text(v.flag) + seq!['<', '/'] + "flag"@
            + seq!['>'],
        o5 == o4 + seq!['<'] + "bar"@ + seq![':'] + "string"@ + seq!['>'] + encode_chars(v.string@)
            + seq!['<', '/'] + "bar"@ + seq![':'] + "string"@ + seq!['>'],
        o6 == o5 + seq!['<'] + "number"@ + xmlns_decl_text("typo"@) + seq!['>'] + int_text(
            v.number as int,
        ) + seq!['<', '/'] + "number"@ + seq!['>'],
        out == o6 + seq!['<', '/'] + "StructWithNamedFields"@ + seq!['>'],
    ensures
        out == pre + swnf_xml(v),
{
    assert(out =~= pre + swnf_xml(v));
}

impl StructWithNamedFields {
    /// Writes the record: the root tag, the two prefix declarations in
    /// insertion order, then the three fields in declaration order.
    #[verifier::rlimit(100)]
    #[verifier::spinoff_prover]
    pub fn serialize(&self, serializer: &mut Serializer) -> (r: Result<(), Error>)
        ensures
            old(serializer).start_open ==> r == Err::<(), Error>(Error::UnexpectedState) && *final(serializer) == *old(serializer),
            !old(serializer).start_open ==> r is Ok && wraps_cleanly(
                *old(serializer),
                *final(serializer),
            ),
            !old(serializer).start_open && old(serializer).scope.frames@.len() == 0 ==> final(serializer).output@ == old(serializer).output@ + swnf_xml(*self),
    {
        if serializer.start_open {
            return Err(Error::UnexpectedState);
        }
        let ghost pre = serializer.output@;
        let ghost frames0 = serializer.scope.frames@;
        let eff = serializer.default_ns();
        let res = if str_eq(eff.as_str(), "") {
            serializer.write_start(None, "StructWithNamedFields", None)
        } else {
            serializer.write_start(None, "StructWithNamedFields", Some(""))
        };
        match res {
            Ok(u) => {},
            Err(e) => {
                return Err(e);
            },
        }
        let ghost o1 = serializer.output@;
        let mut bindings: Vec<Binding> = Vec::new();
        let bind1 = Binding { prefix: "bar".to_owned(), uri: "BAZ".to_owned() };
        let ghost gb1 = bind1;
        bindings.push(bind1);
        let bind2 = Binding { prefix: "foo".to_owned(), uri: "BAR".to_owned() };
        let ghost gb2 = bind2;
        bindings.push(bind2);
        let frame = Frame { default_ns: String::new(), bindings };
        let ghost gframe = frame;
        let tok = match serializer.push(frame) {
            Ok(t) => t,
            Err(e) => {
                return Err(e);
            },
        };
        let ghost o2 = serializer.output@;
        match serializer.end_start() {
            Ok(u) => {},
            Err(e) => {
                return Err(e);
            },
        }
        let ghost o3 = serializer.output@;
        let ghost frames1 = serializer.scope.frames@;
        let id1 = Id { ns: String::new(), name: "flag".to_owned() };
        match display_to_xml(bool_to_str(self.flag), Some(&id1), serializer) {
            Ok(u) => {},
            Err(e) => {
                return Err(e);
            },
        }
        let ghost o4 = serializer.output@;
        let id2 = Id { ns: "BAZ".to_owned(), name: "string".to_owned() };
        match display_to_xml(self.string.as_str(), Some(&id2), serializer) {
            Ok(u) => {},
            Err(e) => {
                return Err(e);
            },
        }
        let ghost o5 = serializer.output@;
        let text = i64_to_string(self.number as i64);
        let id3 = Id { ns: "typo".to_owned(), name: "number".to_owned() };
        match display_to_xml(text.as_str(), Some(&id3), serializer) {
            Ok(u) => {},
            Err(e) => {
                return Err(e);
            },
        }
        let ghost o6 = serializer.output@;
        match serializer.write_close(None, "StructWithNamedFields") {
            Ok(u) => {},
            Err(e) => {
                return Err(e);
            },
        }
        serializer.pop(tok);
        proof {
            assert(serializer.scope.frames@ =~= frames0);
            if frames0.len() == 0 {
                reveal_strlit("");
                reveal_strlit("BAZ");
                reveal_strlit("BAR");
                reveal_strlit("typo");
                lemma_bool_text_plain(self.flag);
                lemma_int_text_plain(self.number as int);
                assert(""@ =~= Seq::<char>::empty());
                assert(gframe.bindings@ =~= Seq::<Binding>::empty().push(gb1).push(gb2));
                assert(gframe.bindings@[0] == gb1);
                assert(gb1.prefix@ == "bar"@ && gb1.uri@ == "BAZ"@);
                assert(gb2.prefix@ == "foo"@ && gb2.uri@ == "BAR"@);
                assert(effective_default_of(frames0) =~= Seq::<char>::empty());
                assert(o1 =~= pre + seq!['<'] + "StructWithNamedFields"@);
                assert(gframe.bindings@.drop_first() =~= Seq::<Binding>::empty().push(gb2));
                assert(Seq::<Binding>::empty().push(gb2).drop_first() =~= Seq::<Binding>::empty());
                assert(Seq::<Binding>::empty().push(gb2)[0] == gb2);
                assert(prefix_for_uri(frames0, gb1.uri@) is None);
                assert(prefix_for_uri(frames0, gb2.uri@) is None);
                assert(new_decls_text(frames0, Seq::<Binding>::empty()) == Seq::<char>::empty());
                assert(new_decls_text(frames0, Seq::<Binding>::empty().push(gb2))
                    =~= prefix_decl_text("foo"@, "BAR"@));
                assert(new_decls_text(frames0, gframe.bindings@) =~= prefix_decl_text(
                    "bar"@,
                    "BAZ"@,
                ) + prefix_decl_text("foo"@, "BAR"@));
                assert(o2 =~= o1 + prefix_decl_text("bar"@, "BAZ"@) + prefix_decl_text(
                    "foo"@,
                    "BAR"@,
                ));
                assert(o3 =~= o2 + seq!['>']);
                assert(frames1 == frames0.push(gframe));
                assert(effective_default_of(frames1) =~= Seq::<char>::empty());
                assert(o4 =~= o3 + seq!['<'] + "flag"@ + seq!['>'] + bool_text(self.flag) + seq![
                    '<',
                    '/',
                ] + "flag"@ + seq!['>']);
                assert("BAZ"@.len() == 3 && "typo"@.len() == 4);
                assert(frames1[0] == gframe);
                assert(frames1.drop_first() =~= Seq::<crate::scope::Frame>::empty());
                assert(bindings_prefix_for(gframe.bindings@, "BAZ"@) == Some("bar"@));
                assert(prefix_for_uri(frames1, "BAZ"@) == Some("bar"@));
                assert(o5 =~= o4 + seq!['<'] + "bar"@ + seq![':'] + "string"@ + seq!['>']
                    + encode_chars(self.string@) + seq!['<', '/'] + "bar"@ + seq![':'] + "string"@
                    + seq!['>']);
                assert(gb1.uri@ != "typo"@ && gb2.uri@ != "typo"@);
                assert(bindings_prefix_for(Seq::<Binding>::empty(), "typo"@) is None);
                assert(bindings_prefix_for(Seq::<Binding>::empty().push(gb2), "typo"@) is None);
                assert(bindings_prefix_for(gframe.bindings@, "typo"@) is None);
                assert(prefix_for_uri(Seq::<crate::scope::Frame>::empty(), "typo"@) is None);
                assert(prefix_for_uri(frames1, "typo"@) is None);
                assert(o6 =~= o5 + seq!['<'] + "number"@ + xmlns_decl_text("typo"@) + seq!['>']
                    + int_text(self.number as int) + seq!['<', '/'] + "number"@ + seq!['>']);
                assert(serializer.output@ =~= o6 + seq!['<', '/'] + "StructWithNamedFields"@
                    + seq!['>']);
                lemma_swnf_assemble(
                    *self,
                    pre,
                    o1,
                    o2,
                    o3,
                    o4,
                    o5,
                    o6,
                    serializer.output@,
                );
            }
        }
        Ok(())
    }

    /// Serializes into a fresh document.
    pub fn to_xml(&self) -> (r: Result<String, Error>)
        ensures
            r matches Ok(s) && s@ == swnf_xml(*self),
    {
        let mut serializer = Serializer::new();
        match self.serialize(&mut serializer) {
            Ok(u) => {
                proof {
                    assert(serializer.output@ =~= swnf_xml(*self));
                }
                Ok(serializer.output)
            },
            Err(e) => Err(e),
        }
    }
}

} // verus!
