//! General properties of the decode pass, stated over the model and proved
//! once for all archives.

use vstd::prelude::*;

use crate::error::ErrV;
use crate::model::{
    all_unvisited, dget, is_container, kv_records, spec_decode, spec_decode_array_refs,
    spec_decode_fields, spec_decode_object, spec_decode_roots, spec_decode_strict_refs, Cfg,
};
use crate::value::ValueV;

verus! {

/// A reference of zero always resolves to absence, whatever the table, the
/// configuration and the resolution path.
pub proof fn lemma_zero_reference_is_absent(table: Seq<ValueV>, cfg: Cfg, visited: Seq<bool>)
    requires
        visited.len() == table.len(),
    ensures
        spec_decode_object(table, cfg, 0, visited) == Ok::<Option<ValueV>, ErrV>(None),
{
}

/// A non-zero reference outside the table bounds is fatal corruption: it
/// always resolves to the dangling-reference error carrying the offending
/// handle, never to a value and never silently.
pub proof fn lemma_dangling_reference_is_fatal(
    table: Seq<ValueV>,
    cfg: Cfg,
    uid: u64,
    visited: Seq<bool>,
)
    requires
        visited.len() == table.len(),
        uid != 0,
        uid >= table.len(),
    ensures
        spec_decode_object(table, cfg, uid, visited) == Err::<Option<ValueV>, ErrV>(
            ErrV::InvalidObjectReference(uid),
        ),
{
}

/// A root entry holding a reference of zero can never decode: the whole
/// pass ends in an error.
pub proof fn lemma_zero_root_is_error(
    table: Seq<ValueV>,
    cfg: Cfg,
    top: Seq<(Seq<char>, ValueV)>,
    i: int,
)
    requires
        0 <= i < top.len(),
        top[i].1 == ValueV::Uid(0),
    ensures
        spec_decode_roots(table, cfg, top) is Err,
        spec_decode(table, cfg, top) is Err,
    decreases top.len(),
{
    assert(all_unvisited(table.len()).len() == table.len());
    if i == 0 {
        lemma_zero_reference_is_absent(table, cfg, all_unvisited(table.len()));
    } else {
        match top[0].1 {
            ValueV::Uid(u) => {
                match spec_decode_object(table, cfg, u, all_unvisited(table.len())) {
                    Err(_) => {},
                    Ok(None) => {},
                    Ok(Some(_)) => {
                        lemma_zero_root_is_error(table, cfg, top.drop_first(), i - 1);
                    },
                }
            },
            _ => {},
        }
    }
}

/// The decoded fields of a generic class whose raw entries carry a
/// `$class` marker always carry a `$classes` entry.
proof fn lemma_fields_keep_classes(
    table: Seq<ValueV>,
    cfg: Cfg,
    uid: u64,
    entries: Seq<(Seq<char>, ValueV)>,
    visited: Seq<bool>,
    fields: Seq<(Seq<char>, ValueV)>,
)
    requires
        visited.len() == table.len(),
        dget(entries, "$class"@) is Some,
        spec_decode_fields(table, cfg, uid, entries, visited) == Ok::<_, ErrV>(fields),
    ensures
        dget(fields, "$classes"@) is Some,
    decreases entries.len(),
{
    assert(entries.len() > 0);
    let k = entries[0].0;
    let v = entries[0].1;
    if k == "$class"@ {
        match v {
            ValueV::Uid(u) => {
                match spec_decode_object(table, cfg, u, visited) {
                    Ok(Some(meta)) => {
                        match meta {
                            ValueV::Dictionary(mes) => {
                                match dget(mes, "$classes"@) {
                                    Some(chain) => {
                                        match spec_decode_fields(
                                            table,
                                            cfg,
                                            uid,
                                            entries.drop_first(),
                                            visited,
                                        ) {
                                            Ok(rest) => {
                                                assert(fields == seq![("$classes"@, chain)] + rest);
                                                assert(fields[0] == ("$classes"@, chain));
                                                assert(dget(fields, "$classes"@) == Some(chain));
                                            },
                                            Err(_) => {},
                                        }
                                    },
                                    None => {},
                                }
                            },
                            _ => {},
                        }
                    },
                    _ => {},
                }
            },
            _ => {},
        }
    } else {
        assert(dget(entries.drop_first(), "$class"@) is Some);
        match v {
            ValueV::Uid(u) => {
                match spec_decode_object(table, cfg, u, visited) {
                    Err(_) => {},
                    Ok(None) => {
                        lemma_fields_keep_classes(
                            table,
                            cfg,
                            uid,
                            entries.drop_first(),
                            visited,
                            fields,
                        );
                    },
                    Ok(Some(dv)) => {
                        match spec_decode_fields(table, cfg, uid, entries.drop_first(), visited) {
                            Ok(rest) => {
                                lemma_fields_keep_classes(
                                    table,
                                    cfg,
                                    uid,
                                    entries.drop_first(),
                                    visited,
                                    rest,
                                );
                                assert(fields == seq![(k, dv)] + rest);
                                if k == "$classes"@ {
                                    assert(dget(fields, "$classes"@) == Some(dv));
                                } else {
                                    assert(fields.drop_first() =~= rest);
                                }
                            },
                            Err(_) => {},
                        }
                    },
                }
            },
            _ => {
                match spec_decode_fields(table, cfg, uid, entries.drop_first(), visited) {
                    Ok(rest) => {
                        lemma_fields_keep_classes(
                            table,
                            cfg,
                            uid,
                            entries.drop_first(),
                            visited,
                            rest,
                        );
                        assert(fields.drop_first() =~= rest);
                    },
                    Err(_) => {},
                }
            },
        }
    }
}

/// With `treat_all_as_classes` set, every container that decodes to a
/// value decodes to a mapping that keeps a `$classes` field — including
/// containers that would otherwise become native arrays or dictionaries.
pub proof fn lemma_treat_all_keeps_classes(
    table: Seq<ValueV>,
    cfg: Cfg,
    uid: u64,
    visited: Seq<bool>,
    v: ValueV,
)
    requires
        cfg.treat_all_as_classes,
        visited.len() == table.len(),
        uid < table.len(),
        is_container(table[uid as int]),
        spec_decode_object(table, cfg, uid, visited) == Ok::<Option<ValueV>, ErrV>(Some(v)),
    ensures
        v is Dictionary,
        dget(v->Dictionary_0, "$classes"@) is Some,
{
    let node = table[uid as int];
    let entries = node->Dictionary_0;
    let marked = visited.update(uid as int, true);
    match crate::model::spec_class_names(table, crate::model::class_ref(node)) {
        Err(_) => {},
        Ok(names) => {
            if names.len() > 0 {
                match spec_decode_fields(table, cfg, uid, entries, marked) {
                    Ok(fields) => {
                        lemma_fields_keep_classes(table, cfg, uid, entries, marked, fields);
                    },
                    Err(_) => {},
                }
            }
        },
    }
}

/// With `leave_null_values` set, a slot holding the `$null` sentinel
/// string resolves to that very string, not to absence.
pub proof fn lemma_leave_null_keeps_sentinel(
    table: Seq<ValueV>,
    cfg: Cfg,
    uid: u64,
    visited: Seq<bool>,
)
    requires
        cfg.leave_null_values,
        visited.len() == table.len(),
        0 < uid < table.len(),
        !visited[uid as int],
        table[uid as int] == ValueV::Text("$null"@),
    ensures
        spec_decode_object(table, cfg, uid, visited) == Ok::<Option<ValueV>, ErrV>(
            Some(ValueV::Text("$null"@)),
        ),
{
}

/// Without `leave_null_values`, the same slot resolves to absence.
pub proof fn lemma_null_sentinel_is_absent(
    table: Seq<ValueV>,
    cfg: Cfg,
    uid: u64,
    visited: Seq<bool>,
)
    requires
        !cfg.leave_null_values,
        visited.len() == table.len(),
        0 < uid < table.len(),
        !visited[uid as int],
        table[uid as int] == ValueV::Text("$null"@),
    ensures
        spec_decode_object(table, cfg, uid, visited) == Ok::<Option<ValueV>, ErrV>(None),
{
}

/// A one-leaf archive decodes to exactly that leaf under its root name:
/// the smallest round trip. The leaf must not be a container marker nor
/// the `$null` sentinel (unless sentinels are kept), and sits at slot one
/// of a two-slot table whose slot zero holds the reserved sentinel.
pub proof fn lemma_single_leaf_archive(name: Seq<char>, leaf: ValueV, cfg: Cfg)
    requires
        !is_container(leaf),
        cfg.leave_null_values || leaf != ValueV::Text("$null"@),
    ensures
        spec_decode(
            seq![ValueV::Text("$null"@), leaf],
            cfg,
            seq![(name, ValueV::Uid(1))],
        ) == Ok::<ValueV, ErrV>(ValueV::Dictionary(seq![(name, leaf)])),
{
    let table = seq![ValueV::Text("$null"@), leaf];
    let top = seq![(name, ValueV::Uid(1))];
    let fresh = all_unvisited(table.len());
    assert(fresh.len() == table.len());
    assert(!fresh[1]);
    assert(table[1] == leaf);
    assert(spec_decode_object(table, cfg, 1, fresh) == Ok::<Option<ValueV>, ErrV>(Some(leaf)));
    assert(top.drop_first() =~= Seq::<(Seq<char>, ValueV)>::empty());
    assert(spec_decode_roots(table, cfg, top.drop_first()) == Ok::<_, ErrV>(
        Seq::<(Seq<char>, ValueV)>::empty(),
    ));
    assert(seq![(name, leaf)] + Seq::<(Seq<char>, ValueV)>::empty() =~= seq![(name, leaf)]);
}

/// The references addressing `n` consecutive table slots from `base` on.
pub open spec fn slot_refs(base: int, n: nat) -> Seq<ValueV> {
    Seq::new(n, |i: int| ValueV::Uid((base + i) as u64))
}

/// The object table of a native-array encoding of `elems`: the reserved
/// sentinel, the container, its class metadata, then the elements.
pub open spec fn array_encoding(elems: Seq<ValueV>) -> Seq<ValueV> {
    seq![
        ValueV::Text("$null"@),
        ValueV::Dictionary(
            seq![
                ("$class"@, ValueV::Uid(2)),
                ("NS.objects"@, ValueV::Array(slot_refs(3, elems.len()))),
            ],
        ),
        ValueV::Dictionary(seq![("$classes"@, ValueV::Array(seq![ValueV::Text("NSArray"@)]))]),
    ] + elems
}

/// Every element of a native-array encoding is a plain leaf that decodes
/// verbatim: neither a container nor a dropped sentinel.
pub open spec fn plain_leaf(v: ValueV, cfg: Cfg) -> bool {
    &&& !is_container(v)
    &&& (cfg.leave_null_values || v != ValueV::Text("$null"@))
}

proof fn lemma_array_refs_decode(elems: Seq<ValueV>, cfg: Cfg, marked: Seq<bool>, k: int)
    requires
        0 <= k <= elems.len(),
        elems.len() + 3 <= u64::MAX,
        forall|i: int| 0 <= i < elems.len() ==> plain_leaf(#[trigger] elems[i], cfg),
        marked == all_unvisited(array_encoding(elems).len()).update(1, true),
    ensures
        spec_decode_array_refs(array_encoding(elems), cfg, slot_refs(3, elems.len()).skip(k), marked)
            == Ok::<Seq<ValueV>, ErrV>(elems.skip(k)),
    decreases elems.len() - k,
{
    let table = array_encoding(elems);
    let refs = slot_refs(3, elems.len());
    assert(table.len() == elems.len() + 3);
    assert(marked.len() == table.len());
    if k == elems.len() {
        assert(refs.skip(k) =~= Seq::<ValueV>::empty());
        assert(elems.skip(k) =~= Seq::<ValueV>::empty());
    } else {
        let u = (k + 3) as u64;
        assert(refs.skip(k)[0] == refs[k]);
        assert(refs[k] == ValueV::Uid(u));
        assert(!marked[u as int]);
        assert(table[u as int] == elems[k]);
        assert(plain_leaf(elems[k], cfg));
        assert(spec_decode_object(table, cfg, u, marked) == Ok::<Option<ValueV>, ErrV>(
            Some(elems[k]),
        ));
        lemma_array_refs_decode(elems, cfg, marked, k + 1);
        assert(refs.skip(k).drop_first() =~= refs.skip(k + 1));
        assert(seq![elems[k]] + elems.skip(k + 1) =~= elems.skip(k));
    }
}

/// Re-encoding a sequence of plain leaves with the native array convention
/// and decoding again yields exactly that sequence under the root name:
/// the round trip over native arrays is the identity.
pub proof fn lemma_native_array_round_trip(name: Seq<char>, elems: Seq<ValueV>, cfg: Cfg)
    requires
        !cfg.treat_all_as_classes,
        elems.len() + 3 <= u64::MAX,
        forall|i: int| 0 <= i < elems.len() ==> plain_leaf(#[trigger] elems[i], cfg),
    ensures
        spec_decode(array_encoding(elems), cfg, seq![(name, ValueV::Uid(1))]) == Ok::<
            ValueV,
            ErrV,
        >(ValueV::Dictionary(seq![(name, ValueV::Array(elems))])),
{
    let table = array_encoding(elems);
    let top = seq![(name, ValueV::Uid(1))];
    let fresh = all_unvisited(table.len());
    let node = table[1];
    let entries = node->Dictionary_0;
    assert(fresh.len() == table.len());
    assert(!fresh[1]);
    reveal_strlit("$null");
    reveal_strlit("$class");
    reveal_strlit("$classes");
    reveal_strlit("NS.objects");
    reveal_strlit("NSArray");
    reveal_strlit("NSDictionary");
    reveal_strlit("NSMutableDictionary");
    assert(dget(entries, "$class"@) == Some(ValueV::Uid(2)));
    assert(is_container(node));
    assert(crate::model::class_ref(node) == 2);
    let mes = table[2]->Dictionary_0;
    assert(dget(mes, "$classes"@) == Some(
        ValueV::Array(seq![ValueV::Text("NSArray"@)]),
    ));
    let chain = seq![ValueV::Text("NSArray"@)];
    assert(chain.drop_first() =~= Seq::<ValueV>::empty());
    assert(seq!["NSArray"@] + Seq::<Seq<char>>::empty() =~= seq!["NSArray"@]);
    assert(crate::model::names_of(chain.drop_first(), 2) == Ok::<Seq<Seq<char>>, ErrV>(
        Seq::empty(),
    ));
    assert(crate::model::names_of(chain, 2) == Ok::<Seq<Seq<char>>, ErrV>(seq!["NSArray"@]));
    assert(crate::model::spec_class_names(table, 2) == Ok::<Seq<Seq<char>>, ErrV>(
        seq!["NSArray"@],
    ));
    let names = seq!["NSArray"@];
    assert(names[0] == "NSArray"@);
    assert(names[0] != "NSDictionary"@);
    assert(names[0] != "NSMutableDictionary"@);
    let marked = fresh.update(1, true);
    assert("$class"@.len() == 6);
    assert("NS.objects"@.len() == 10);
    assert("$class"@ != "NS.objects"@);
    assert(entries[0].0 == "$class"@);
    let tail = entries.drop_first();
    assert(tail =~= seq![("NS.objects"@, ValueV::Array(slot_refs(3, elems.len())))]);
    assert(dget(tail, "NS.objects"@) == Some(ValueV::Array(slot_refs(3, elems.len()))));
    assert(dget(entries, "NS.objects"@) == Some(ValueV::Array(slot_refs(3, elems.len()))));
    assert(slot_refs(3, elems.len()).skip(0) =~= slot_refs(3, elems.len()));
    assert(elems.skip(0) =~= elems);
    lemma_array_refs_decode(elems, cfg, marked, 0);
    assert(spec_decode_object(table, cfg, 1, fresh) == Ok::<Option<ValueV>, ErrV>(
        Some(ValueV::Array(elems)),
    ));
    assert(top.drop_first() =~= Seq::<(Seq<char>, ValueV)>::empty());
    assert(spec_decode_roots(table, cfg, top.drop_first()) == Ok::<_, ErrV>(
        Seq::<(Seq<char>, ValueV)>::empty(),
    ));
    assert(seq![(name, ValueV::Array(elems))] + Seq::<(Seq<char>, ValueV)>::empty() =~= seq![
        (name, ValueV::Array(elems)),
    ]);
}

/// The object table of a native-dictionary encoding of paired keys and
/// values: the reserved sentinel, the container, its class metadata, then
/// the keys, then the values.
pub open spec fn dict_encoding(keys: Seq<ValueV>, vals: Seq<ValueV>) -> Seq<ValueV> {
    seq![
        ValueV::Text("$null"@),
        ValueV::Dictionary(
            seq![
                ("$class"@, ValueV::Uid(2)),
                ("NS.keys"@, ValueV::Array(slot_refs(3, keys.len()))),
                ("NS.objects"@, ValueV::Array(slot_refs(3 + keys.len() as int, vals.len()))),
            ],
        ),
        ValueV::Dictionary(
            seq![("$classes"@, ValueV::Array(seq![ValueV::Text("NSDictionary"@)]))],
        ),
    ] + keys + vals
}

proof fn lemma_strict_refs_decode(
    table: Seq<ValueV>,
    cfg: Cfg,
    owner: u64,
    key: Seq<char>,
    list: Seq<ValueV>,
    base: int,
    marked: Seq<bool>,
    k: int,
)
    requires
        2 <= base,
        base + list.len() <= table.len(),
        table.len() <= u64::MAX,
        0 <= k <= list.len(),
        forall|i: int| 0 <= i < list.len() ==> table[base + i] == #[trigger] list[i],
        forall|i: int| 0 <= i < list.len() ==> plain_leaf(#[trigger] list[i], cfg),
        marked == all_unvisited(table.len()).update(1, true),
    ensures
        spec_decode_strict_refs(table, cfg, owner, key, slot_refs(base, list.len()).skip(k), marked)
            == Ok::<Seq<ValueV>, ErrV>(list.skip(k)),
    decreases list.len() - k,
{
    let refs = slot_refs(base, list.len());
    assert(marked.len() == table.len());
    if k == list.len() {
        assert(refs.skip(k) =~= Seq::<ValueV>::empty());
        assert(list.skip(k) =~= Seq::<ValueV>::empty());
    } else {
        let u = (base + k) as u64;
        assert(u as int == base + k);
        assert(refs.skip(k)[0] == refs[k]);
        assert(refs[k] == ValueV::Uid(u));
        assert(!marked[u as int]);
        assert(table[u as int] == list[k]);
        assert(plain_leaf(list[k], cfg));
        assert(spec_decode_object(table, cfg, u, marked) == Ok::<Option<ValueV>, ErrV>(
            Some(list[k]),
        ));
        lemma_strict_refs_decode(table, cfg, owner, key, list, base, marked, k + 1);
        assert(refs.skip(k).drop_first() =~= refs.skip(k + 1));
        assert(seq![list[k]] + list.skip(k + 1) =~= list.skip(k));
    }
}

/// Re-encoding paired keys and values of plain leaves with the native
/// dictionary convention and decoding again yields exactly the ordered
/// `{key, value}` record sequence of those pairs: the irreversible half of
/// the round trip, pinned down as the record transformation.
pub proof fn lemma_native_dictionary_round_trip(
    name: Seq<char>,
    keys: Seq<ValueV>,
    vals: Seq<ValueV>,
    cfg: Cfg,
)
    requires
        !cfg.treat_all_as_classes,
        keys.len() == vals.len(),
        keys.len() + vals.len() + 3 <= u64::MAX,
        forall|i: int| 0 <= i < keys.len() ==> plain_leaf(#[trigger] keys[i], cfg),
        forall|i: int| 0 <= i < vals.len() ==> plain_leaf(#[trigger] vals[i], cfg),
    ensures
        spec_decode(dict_encoding(keys, vals), cfg, seq![(name, ValueV::Uid(1))]) == Ok::<
            ValueV,
            ErrV,
        >(ValueV::Dictionary(seq![(name, ValueV::Array(kv_records(keys, vals)))])),
{
    let table = dict_encoding(keys, vals);
    let top = seq![(name, ValueV::Uid(1))];
    let fresh = all_unvisited(table.len());
    let node = table[1];
    let entries = node->Dictionary_0;
    assert(table.len() == keys.len() + vals.len() + 3);
    assert(fresh.len() == table.len());
    assert(!fresh[1]);
    reveal_strlit("$null");
    reveal_strlit("$class");
    reveal_strlit("$classes");
    reveal_strlit("NS.keys");
    reveal_strlit("NS.objects");
    reveal_strlit("NSDictionary");
    assert("$class"@.len() == 6);
    assert("NS.keys"@.len() == 7);
    assert("NS.objects"@.len() == 10);
    assert("$class"@ != "NS.keys"@);
    assert("$class"@ != "NS.objects"@);
    assert("NS.keys"@ != "NS.objects"@);
    assert(dget(entries, "$class"@) == Some(ValueV::Uid(2)));
    assert(is_container(node));
    assert(crate::model::class_ref(node) == 2);
    let mes = table[2]->Dictionary_0;
    assert(dget(mes, "$classes"@) == Some(
        ValueV::Array(seq![ValueV::Text("NSDictionary"@)]),
    ));
    let chain = seq![ValueV::Text("NSDictionary"@)];
    assert(chain.drop_first() =~= Seq::<ValueV>::empty());
    assert(seq!["NSDictionary"@] + Seq::<Seq<char>>::empty() =~= seq!["NSDictionary"@]);
    assert(crate::model::names_of(chain.drop_first(), 2) == Ok::<Seq<Seq<char>>, ErrV>(
        Seq::empty(),
    ));
    assert(crate::model::names_of(chain, 2) == Ok::<Seq<Seq<char>>, ErrV>(
        seq!["NSDictionary"@],
    ));
    assert(crate::model::spec_class_names(table, 2) == Ok::<Seq<Seq<char>>, ErrV>(
        seq!["NSDictionary"@],
    ));
    let marked = fresh.update(1, true);
    let tail1 = entries.drop_first();
    let krefs = slot_refs(3, keys.len());
    let vrefs = slot_refs(3 + keys.len() as int, vals.len());
    assert(tail1 =~= seq![
        ("NS.keys"@, ValueV::Array(krefs)),
        ("NS.objects"@, ValueV::Array(vrefs)),
    ]);
    assert(dget(tail1, "NS.keys"@) == Some(ValueV::Array(krefs)));
    assert(dget(entries, "NS.keys"@) == Some(ValueV::Array(krefs)));
    let tail2 = tail1.drop_first();
    assert(tail2 =~= seq![("NS.objects"@, ValueV::Array(vrefs))]);
    assert(dget(tail2, "NS.objects"@) == Some(ValueV::Array(vrefs)));
    assert(dget(tail1, "NS.objects"@) == Some(ValueV::Array(vrefs)));
    assert(dget(entries, "NS.objects"@) == Some(ValueV::Array(vrefs)));
    assert forall|i: int| 0 <= i < keys.len() implies table[3 + i] == #[trigger] keys[i] by {}
    assert forall|i: int| 0 <= i < vals.len() implies table[3 + keys.len() as int + i]
        == #[trigger] vals[i] by {}
    assert(krefs.skip(0) =~= krefs);
    assert(keys.skip(0) =~= keys);
    lemma_strict_refs_decode(table, cfg, 1, "NS.keys"@, keys, 3, marked, 0);
    assert(vrefs.skip(0) =~= vrefs);
    assert(vals.skip(0) =~= vals);
    lemma_strict_refs_decode(
        table,
        cfg,
        1,
        "NS.objects"@,
        vals,
        3 + keys.len() as int,
        marked,
        0,
    );
    assert(spec_decode_strict_refs(table, cfg, 1, "NS.keys"@, krefs, marked) == Ok::<
        Seq<ValueV>,
        ErrV,
    >(keys));
    assert(spec_decode_strict_refs(table, cfg, 1, "NS.objects"@, vrefs, marked) == Ok::<
        Seq<ValueV>,
        ErrV,
    >(vals));
    assert(spec_decode_object(table, cfg, 1, fresh) == Ok::<Option<ValueV>, ErrV>(
        Some(ValueV::Array(kv_records(keys, vals))),
    ));
    assert(top.drop_first() =~= Seq::<(Seq<char>, ValueV)>::empty());
    assert(spec_decode_roots(table, cfg, top.drop_first()) == Ok::<_, ErrV>(
        Seq::<(Seq<char>, ValueV)>::empty(),
    ));
    assert(seq![(name, ValueV::Array(kv_records(keys, vals)))] + Seq::<
        (Seq<char>, ValueV),
    >::empty() =~= seq![(name, ValueV::Array(kv_records(keys, vals)))]);
}

} // verus!
