//! The mathematical model of the decode pass.
//!
//! Every executable function of the decoder is proved to return exactly what
//! the spec functions here compute. The model mirrors the archive layout:
//! a flat object table (`Seq<ValueV>`), a top map of named root references,
//! and a recursive reference resolver that keeps the set of table slots on
//! the current resolution path (`visited`) to refuse cyclic archives.

use vstd::prelude::*;

use crate::error::ErrV;
use crate::value::ValueV;

verus! {

/// The two independent configuration switches of a decode pass.
pub struct Cfg {
    /// Suppress native array/dictionary specialization: every container is
    /// decoded as a generic class and keeps its `$classes` metadata.
    pub treat_all_as_classes: bool,
    /// Return the `$null` sentinel string verbatim instead of turning it
    /// into absence.
    pub leave_null_values: bool,
}

/// First entry of an ordered mapping under `key`, if any.
pub open spec fn dget(es: Seq<(Seq<char>, ValueV)>, key: Seq<char>) -> Option<ValueV>
    decreases es.len(),
{
    if es.len() == 0 {
        None
    } else if es[0].0 == key {
        Some(es[0].1)
    } else {
        dget(es.drop_first(), key)
    }
}

/// A node is a container exactly when it is a mapping whose `$class` entry
/// holds a reference. Everything else decodes as an ordinary leaf.
pub open spec fn is_container(v: ValueV) -> bool {
    match v {
        ValueV::Dictionary(es) => match dget(es, "$class"@) {
            Some(c) => c is Uid,
            None => false,
        },
        _ => false,
    }
}

/// The class reference of a container.
pub open spec fn class_ref(v: ValueV) -> u64
    recommends
        is_container(v),
{
    dget(v->Dictionary_0, "$class"@).unwrap()->Uid_0
}

/// The ordered class-name chain read from one class-metadata element list:
/// every element must be a string, else the object encoding is malformed.
pub open spec fn names_of(elems: Seq<ValueV>, cuid: u64) -> Result<Seq<Seq<char>>, ErrV>
    decreases elems.len(),
{
    if elems.len() == 0 {
        Ok(Seq::empty())
    } else {
        match elems[0] {
            ValueV::Text(s) => match names_of(elems.drop_first(), cuid) {
                Ok(rest) => Ok(seq![s] + rest),
                Err(e) => Err(e),
            },
            _ => Err(ErrV::InvalidObjectEncoding(cuid)),
        }
    }
}

/// Resolve a class reference to its class-name chain, most-derived first:
/// the referenced slot must hold a mapping whose `$classes` entry is a
/// sequence of strings.
pub open spec fn spec_class_names(table: Seq<ValueV>, cuid: u64) -> Result<Seq<Seq<char>>, ErrV> {
    if cuid >= table.len() {
        Err(ErrV::InvalidObjectEncoding(cuid))
    } else {
        match table[cuid as int] {
            ValueV::Dictionary(es) => match dget(es, "$classes"@) {
                Some(ValueV::Array(names)) => names_of(names, cuid),
                _ => Err(ErrV::InvalidObjectEncoding(cuid)),
            },
            _ => Err(ErrV::InvalidObjectEncoding(cuid)),
        }
    }
}

/// How many slots are still unvisited: the termination measure of the
/// resolver.
pub open spec fn count_false(s: Seq<bool>) -> nat
    decreases s.len(),
{
    if s.len() == 0 {
        0
    } else {
        (if s[0] {
            0nat
        } else {
            1nat
        }) + count_false(s.drop_first())
    }
}

/// Marking an unvisited slot strictly shrinks the measure.
pub proof fn lemma_count_false_update(s: Seq<bool>, i: int)
    requires
        0 <= i < s.len(),
        !s[i],
    ensures
        count_false(s.update(i, true)) < count_false(s),
    decreases s.len(),
{
    if i == 0 {
        assert(s.update(0, true).drop_first() =~= s.drop_first());
    } else {
        assert(s.update(i, true).drop_first() =~= s.drop_first().update(i - 1, true));
        lemma_count_false_update(s.drop_first(), i - 1);
    }
}

/// The fresh visited mask of a decode pass: no slot is on the path yet.
pub open spec fn all_unvisited(n: nat) -> Seq<bool> {
    Seq::new(n, |i: int| false)
}

/// The reference resolver. Given a reference `uid`, produce `Ok(None)` for
/// absence, `Ok(Some(v))` for a resolved value, or the terminal error.
///
/// A reference of zero is always absence. A dangling reference is fatal. A
/// slot already on the resolution path closes a cycle, which is refused
/// rather than resolved forever. The `$null` sentinel string becomes
/// absence unless `leave_null_values` is set. A non-container node is the
/// result itself; a container dispatches on the first name of its class
/// chain, and an empty chain resolves to absence.
pub open spec fn spec_decode_object(
    table: Seq<ValueV>,
    cfg: Cfg,
    uid: u64,
    visited: Seq<bool>,
) -> Result<Option<ValueV>, ErrV>
    decreases count_false(visited), 0int, 0int,
        when visited.len() == table.len()
        via spec_decode_object_dec
{
    if uid == 0 {
        Ok(None)
    } else if uid >= table.len() {
        Err(ErrV::InvalidObjectReference(uid))
    } else if visited[uid as int] {
        Err(ErrV::CyclicReference(uid))
    } else {
        let node = table[uid as int];
        if node matches ValueV::Text(s) && s == "$null"@ && !cfg.leave_null_values {
            Ok(None)
        } else if is_container(node) {
            let entries = node->Dictionary_0;
            match spec_class_names(table, class_ref(node)) {
                Err(e) => Err(e),
                Ok(names) => if names.len() == 0 {
                    Ok(None)
                } else {
                    let marked = visited.update(uid as int, true);
                    if !cfg.treat_all_as_classes && (names[0] == "NSDictionary"@ || names[0]
                        == "NSMutableDictionary"@) {
                        spec_decode_dict(table, cfg, uid, entries, marked)
                    } else if !cfg.treat_all_as_classes && (names[0] == "NSArray"@ || names[0]
                        == "NSMutableArray"@) {
                        spec_decode_array(table, cfg, uid, entries, marked)
                    } else {
                        spec_decode_custom_class(table, cfg, uid, entries, marked)
                    }
                },
            }
        } else {
            Ok(Some(node))
        }
    }
}

#[via_fn]
proof fn spec_decode_object_dec(table: Seq<ValueV>, cfg: Cfg, uid: u64, visited: Seq<bool>) {
    if uid < visited.len() && !visited[uid as int] {
        lemma_count_false_update(visited, uid as int);
    }
}

/// Resolve a list of references where every element must resolve to a
/// value: a non-reference element, a resolution error, and absence are all
/// fatal. Used for dictionary keys and values.
pub open spec fn spec_decode_strict_refs(
    table: Seq<ValueV>,
    cfg: Cfg,
    owner: u64,
    key: Seq<char>,
    elems: Seq<ValueV>,
    visited: Seq<bool>,
) -> Result<Seq<ValueV>, ErrV>
    decreases count_false(visited), 1int, elems.len(),
{
    if elems.len() == 0 {
        Ok(Seq::empty())
    } else {
        match elems[0] {
            ValueV::Uid(u) => match spec_decode_object(table, cfg, u, visited) {
                Err(e) => Err(e),
                Ok(None) => Err(ErrV::InvalidObjectEncoding(owner)),
                Ok(Some(v)) => match spec_decode_strict_refs(
                    table,
                    cfg,
                    owner,
                    key,
                    elems.drop_first(),
                    visited,
                ) {
                    Ok(rest) => Ok(seq![v] + rest),
                    Err(e) => Err(e),
                },
            },
            _ => Err(ErrV::ExpectedUIDValue(key)),
        }
    }
}

/// Resolve the element list of a native array: a non-reference element or a
/// resolution error is fatal, but an element resolving to absence is
/// dropped, the survivors keeping their relative order.
pub open spec fn spec_decode_array_refs(
    table: Seq<ValueV>,
    cfg: Cfg,
    elems: Seq<ValueV>,
    visited: Seq<bool>,
) -> Result<Seq<ValueV>, ErrV>
    decreases count_false(visited), 1int, elems.len(),
{
    if elems.len() == 0 {
        Ok(Seq::empty())
    } else {
        match elems[0] {
            ValueV::Uid(u) => match spec_decode_object(table, cfg, u, visited) {
                Err(e) => Err(e),
                Ok(None) => spec_decode_array_refs(table, cfg, elems.drop_first(), visited),
                Ok(Some(v)) => match spec_decode_array_refs(
                    table,
                    cfg,
                    elems.drop_first(),
                    visited,
                ) {
                    Ok(rest) => Ok(seq![v] + rest),
                    Err(e) => Err(e),
                },
            },
            _ => Err(ErrV::ExpectedUIDValue("NS.objects"@)),
        }
    }
}

/// Resolve a sequence sitting in a generic-class field: elements that are
/// not references, fail to resolve, or resolve to absence are silently
/// skipped; the rest keep their relative order. Never fails.
pub open spec fn spec_decode_field_refs(
    table: Seq<ValueV>,
    cfg: Cfg,
    elems: Seq<ValueV>,
    visited: Seq<bool>,
) -> Seq<ValueV>
    decreases count_false(visited), 1int, elems.len(),
{
    if elems.len() == 0 {
        Seq::empty()
    } else {
        let rest = spec_decode_field_refs(table, cfg, elems.drop_first(), visited);
        match elems[0] {
            ValueV::Uid(u) => match spec_decode_object(table, cfg, u, visited) {
                Ok(Some(v)) => seq![v] + rest,
                _ => rest,
            },
            _ => rest,
        }
    }
}

/// One key/value record of a decoded native dictionary.
pub open spec fn kv_record(k: ValueV, v: ValueV) -> ValueV {
    ValueV::Dictionary(seq![("key"@, k), ("value"@, v)])
}

/// The pairwise record sequence of decoded keys and values.
pub open spec fn kv_records(ks: Seq<ValueV>, vs: Seq<ValueV>) -> Seq<ValueV>
    recommends
        ks.len() == vs.len(),
    decreases ks.len(),
{
    if ks.len() == 0 {
        Seq::empty()
    } else {
        seq![kv_record(ks[0], vs[0])] + kv_records(ks.drop_first(), vs.drop_first())
    }
}

/// The native dictionary specializer: `NS.keys` and `NS.objects` must both
/// be sequences of references of equal length, resolved pairwise by
/// position into `{key, value}` records. Keys need not be strings, so the
/// result is the ordered record sequence, not a mapping.
pub open spec fn spec_decode_dict(
    table: Seq<ValueV>,
    cfg: Cfg,
    uid: u64,
    entries: Seq<(Seq<char>, ValueV)>,
    visited: Seq<bool>,
) -> Result<Option<ValueV>, ErrV>
    decreases count_false(visited), 2int, 0int,
{
    match dget(entries, "NS.keys"@) {
        Some(ValueV::Array(rkeys)) => match dget(entries, "NS.objects"@) {
            Some(ValueV::Array(rvals)) => match spec_decode_strict_refs(
                table,
                cfg,
                uid,
                "NS.keys"@,
                rkeys,
                visited,
            ) {
                Err(e) => Err(e),
                Ok(dkeys) => match spec_decode_strict_refs(
                    table,
                    cfg,
                    uid,
                    "NS.objects"@,
                    rvals,
                    visited,
                ) {
                    Err(e) => Err(e),
                    Ok(dvals) => if dkeys.len() == dvals.len() {
                        Ok(Some(ValueV::Array(kv_records(dkeys, dvals))))
                    } else {
                        Err(ErrV::InvalidObjectEncoding(uid))
                    },
                },
            },
            _ => Err(ErrV::InvalidObjectEncoding(uid)),
        },
        _ => Err(ErrV::InvalidObjectEncoding(uid)),
    }
}

/// The native array specializer: `NS.objects` must be a sequence of
/// references; absent elements are dropped.
pub open spec fn spec_decode_array(
    table: Seq<ValueV>,
    cfg: Cfg,
    uid: u64,
    entries: Seq<(Seq<char>, ValueV)>,
    visited: Seq<bool>,
) -> Result<Option<ValueV>, ErrV>
    decreases count_false(visited), 2int, 0int,
{
    match dget(entries, "NS.objects"@) {
        Some(ValueV::Array(relems)) => match spec_decode_array_refs(table, cfg, relems, visited) {
            Ok(vs) => Ok(Some(ValueV::Array(vs))),
            Err(e) => Err(e),
        },
        _ => Err(ErrV::InvalidObjectEncoding(uid)),
    }
}

/// The fields of a generic class, in order. The `$class` field is replaced
/// by a `$classes` field carrying the resolved class-metadata chain; a
/// reference field is resolved, and omitted entirely when absent; a
/// sequence field is resolved element by element, leniently; anything else
/// is copied verbatim.
pub open spec fn spec_decode_fields(
    table: Seq<ValueV>,
    cfg: Cfg,
    uid: u64,
    entries: Seq<(Seq<char>, ValueV)>,
    visited: Seq<bool>,
) -> Result<Seq<(Seq<char>, ValueV)>, ErrV>
    decreases count_false(visited), 2int, entries.len(),
{
    if entries.len() == 0 {
        Ok(Seq::empty())
    } else {
        let k = entries[0].0;
        let v = entries[0].1;
        if k == "$class"@ {
            match v {
                ValueV::Uid(u) => match spec_decode_object(table, cfg, u, visited) {
                    Err(e) => Err(e),
                    Ok(None) => Err(ErrV::InvalidObjectEncoding(uid)),
                    Ok(Some(meta)) => match meta {
                        ValueV::Dictionary(mes) => match dget(mes, "$classes"@) {
                            Some(chain) => match spec_decode_fields(
                                table,
                                cfg,
                                uid,
                                entries.drop_first(),
                                visited,
                            ) {
                                Ok(rest) => Ok(seq![("$classes"@, chain)] + rest),
                                Err(e) => Err(e),
                            },
                            None => Err(ErrV::InvalidObjectEncoding(uid)),
                        },
                        _ => Err(ErrV::InvalidObjectEncoding(uid)),
                    },
                },
                _ => Err(ErrV::ExpectedUIDValue("$class"@)),
            }
        } else {
            match v {
                ValueV::Uid(u) => match spec_decode_object(table, cfg, u, visited) {
                    Err(e) => Err(e),
                    Ok(None) => spec_decode_fields(table, cfg, uid, entries.drop_first(), visited),
                    Ok(Some(dv)) => match spec_decode_fields(
                        table,
                        cfg,
                        uid,
                        entries.drop_first(),
                        visited,
                    ) {
                        Ok(rest) => Ok(seq![(k, dv)] + rest),
                        Err(e) => Err(e),
                    },
                },
                ValueV::Array(relems) => match spec_decode_fields(
                    table,
                    cfg,
                    uid,
                    entries.drop_first(),
                    visited,
                ) {
                    Ok(rest) => Ok(
                        seq![(k, ValueV::Array(spec_decode_field_refs(table, cfg, relems, visited)))]
                            + rest,
                    ),
                    Err(e) => Err(e),
                },
                _ => match spec_decode_fields(table, cfg, uid, entries.drop_first(), visited) {
                    Ok(rest) => Ok(seq![(k, v)] + rest),
                    Err(e) => Err(e),
                },
            }
        }
    }
}

/// The generic-class specializer: the decoded fields, as a mapping.
pub open spec fn spec_decode_custom_class(
    table: Seq<ValueV>,
    cfg: Cfg,
    uid: u64,
    entries: Seq<(Seq<char>, ValueV)>,
    visited: Seq<bool>,
) -> Result<Option<ValueV>, ErrV>
    decreases count_false(visited), 3int, 0int,
{
    match spec_decode_fields(table, cfg, uid, entries, visited) {
        Ok(fields) => Ok(Some(ValueV::Dictionary(fields))),
        Err(e) => Err(e),
    }
}

/// The top-level assembler: every root entry must be a reference and must
/// resolve to a value; absence at a root is an error. Iteration order is
/// preserved into the output.
pub open spec fn spec_decode_roots(
    table: Seq<ValueV>,
    cfg: Cfg,
    top: Seq<(Seq<char>, ValueV)>,
) -> Result<Seq<(Seq<char>, ValueV)>, ErrV>
    decreases top.len(),
{
    if top.len() == 0 {
        Ok(Seq::empty())
    } else {
        match top[0].1 {
            ValueV::Uid(u) => match spec_decode_object(table, cfg, u, all_unvisited(table.len())) {
                Err(e) => Err(e),
                Ok(None) => Err(ErrV::InvalidObjectEncoding(u)),
                Ok(Some(v)) => match spec_decode_roots(table, cfg, top.drop_first()) {
                    Ok(rest) => Ok(seq![(top[0].0, v)] + rest),
                    Err(e) => Err(e),
                },
            },
            _ => Err(ErrV::ExpectedUIDValue(top[0].0)),
        }
    }
}

/// A whole decode pass over a validated archive.
pub open spec fn spec_decode(
    table: Seq<ValueV>,
    cfg: Cfg,
    top: Seq<(Seq<char>, ValueV)>,
) -> Result<ValueV, ErrV> {
    match spec_decode_roots(table, cfg, top) {
        Ok(es) => Ok(ValueV::Dictionary(es)),
        Err(e) => Err(e),
    }
}

/// The header validator: the root document must be a mapping holding, in
/// this order of checking, `$archiver` (the fixed archiver name),
/// `$version` (the fixed version number), `$top` (a mapping) and
/// `$objects` (a sequence). On success it yields the object table and the
/// top map.
pub open spec fn spec_validate(root: ValueV) -> Result<
    (Seq<ValueV>, Seq<(Seq<char>, ValueV)>),
    ErrV,
> {
    match root {
        ValueV::Dictionary(es) => match dget(es, "$archiver"@) {
            None => Err(ErrV::MissingHeaderKey("$archiver"@)),
            Some(a) => match a {
                ValueV::Text(name) => if name != "NSKeyedArchiver"@ {
                    Err(ErrV::UnsupportedArchiver)
                } else {
                    match dget(es, "$version"@) {
                        None => Err(ErrV::MissingHeaderKey("$version"@)),
                        Some(v) => match v {
                            ValueV::Integer(n) => if !(0 <= n <= u64::MAX) {
                                Err(ErrV::WrongValueType("$version"@, "Number"@))
                            } else if n != 100000 {
                                Err(ErrV::UnsupportedArchiverVersion)
                            } else {
                                match dget(es, "$top"@) {
                                    None => Err(ErrV::MissingHeaderKey("$top"@)),
                                    Some(t) => match t {
                                        ValueV::Dictionary(tes) => match dget(es, "$objects"@) {
                                            None => Err(ErrV::MissingHeaderKey("$objects"@)),
                                            Some(o) => match o {
                                                ValueV::Array(table) => Ok((table, tes)),
                                                _ => Err(
                                                    ErrV::WrongValueType("$objects"@, "Array"@),
                                                ),
                                            },
                                        },
                                        _ => Err(ErrV::WrongValueType("$top"@, "Dictionary"@)),
                                    },
                                }
                            },
                            _ => Err(ErrV::WrongValueType("$version"@, "Number"@)),
                        },
                    }
                },
                _ => Err(ErrV::WrongValueType("$archiver"@, "String"@)),
            },
        },
        _ => Err(ErrV::WrongValueType("root"@, "Dictionary"@)),
    }
}

} // verus!
