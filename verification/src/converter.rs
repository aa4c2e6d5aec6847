//! The executable decoder, proved against the model in [`crate::model`].

use vstd::prelude::*;

use crate::error::{ConverterError, ErrV};
use crate::model::{
    all_unvisited, class_ref, count_false, dget, is_container, kv_record, kv_records,
    lemma_count_false_update, names_of, spec_class_names, spec_decode, spec_decode_array,
    spec_decode_array_refs, spec_decode_custom_class, spec_decode_dict, spec_decode_field_refs,
    spec_decode_fields, spec_decode_object, spec_decode_roots, spec_decode_strict_refs,
    spec_validate, Cfg,
};
use crate::value::{entries_v, lemma_entries_v, lemma_seq_v, seq_v, Value, ValueV};
use vstd::pervasive::unreached;

verus! {

broadcast use lemma_seq_v, lemma_entries_v;

/// The model of a sequence of class-name strings.
pub open spec fn strings_v(s: Seq<String>) -> Seq<Seq<char>> {
    Seq::new(s.len(), |i: int| s[i]@)
}

/// Decodes an archive that stores an object graph as a flat table of
/// index-addressed nodes into a plain nested value tree.
#[derive(Debug)]
pub struct Converter {
    /// The object table: an immutable, index-addressed sequence of raw
    /// nodes. Slot zero is reserved for the `$null` sentinel.
    pub objects: Vec<Value>,
    /// The top map: the named root references of the decode.
    pub top: Vec<(String, Value)>,
    /// Decode every container as a generic class, keeping `$classes`.
    pub treat_all_as_classes: bool,
    /// Surface the `$null` sentinel verbatim instead of as absence.
    pub leave_null_values: bool,
}

/// First entry of an ordered mapping under `key`, if any.
#[verifier::loop_isolation(false)]
fn dict_get<'a>(es: &'a Vec<(String, Value)>, key: &String) -> (r: Option<&'a Value>)
    ensures
        match r {
            Some(v) => dget(entries_v(es@), key@) == Some(v@),
            None => dget(entries_v(es@), key@) is None,
        },
{
    let ghost full = entries_v(es@);
    proof {
        assert(full.skip(0) =~= full);
    }
    let mut i: usize = 0;
    while i < es.len()
        invariant
            i <= es.len(),
            dget(full, key@) == dget(full.skip(i as int), key@),
        decreases es.len() - i,
    {
        proof {
            assert(full.skip(i as int)[0] == full[i as int]);
            assert(full.skip(i as int).drop_first() =~= full.skip(i as int + 1));
        }
        if es[i].0 == *key {
            return Some(&es[i].1);
        }
        i = i + 1;
    }
    proof {
        assert(full.skip(es@.len() as int) =~= Seq::<(Seq<char>, ValueV)>::empty());
    }
    None
}

/// The container test: a mapping whose `$class` entry holds a reference.
fn is_container_node(val: &Value) -> (r: bool)
    ensures
        r == is_container(val@),
{
    match val {
        Value::Dictionary(es) => {
            let marker = String::from_str("$class");
            match dict_get(es, &marker) {
                Some(c) => match c {
                    Value::Uid(_) => true,
                    _ => false,
                },
                None => false,
            }
        },
        _ => false,
    }
}

/// A copy of the visited mask with one slot marked.
#[verifier::loop_isolation(false)]
fn mark(visited: &Vec<bool>, idx: usize) -> (r: Vec<bool>)
    requires
        idx < visited@.len(),
    ensures
        r@ == visited@.update(idx as int, true),
{
    let mut r: Vec<bool> = Vec::new();
    let mut j: usize = 0;
    while j < visited.len()
        invariant
            j <= visited.len(),
            r@.len() == j as int,
            forall|k: int| 0 <= k < j ==> r@[k] == (if k == idx as int {
                true
            } else {
                visited@[k]
            }),
        decreases visited.len() - j,
    {
        if j == idx {
            r.push(true);
        } else {
            r.push(visited[j]);
        }
        j = j + 1;
    }
    proof {
        assert(r@ =~= visited@.update(idx as int, true));
    }
    r
}

/// A fresh visited mask: no slot is on the resolution path.
#[verifier::loop_isolation(false)]
fn make_unvisited(n: usize) -> (r: Vec<bool>)
    ensures
        r@ == all_unvisited(n as nat),
{
    let mut r: Vec<bool> = Vec::new();
    let mut j: usize = 0;
    while j < n
        invariant
            j <= n,
            r@.len() == j as int,
            forall|k: int| 0 <= k < j ==> !r@[k],
        decreases n - j,
    {
        r.push(false);
        j = j + 1;
    }
    proof {
        assert(r@ =~= all_unvisited(n as nat));
    }
    r
}

impl Converter {
    /// The model of the object table.
    pub open spec fn table_v(&self) -> Seq<ValueV> {
        seq_v(self.objects@)
    }

    /// The model of the top map.
    pub open spec fn top_v(&self) -> Seq<(Seq<char>, ValueV)> {
        entries_v(self.top@)
    }

    /// The configuration the next decode pass will run under.
    pub open spec fn cfg(&self) -> Cfg {
        Cfg {
            treat_all_as_classes: self.treat_all_as_classes,
            leave_null_values: self.leave_null_values,
        }
    }

    /// Builds a converter from the raw archive document: the header
    /// validator. The root must be a mapping holding the four required
    /// header keys with their required shapes; otherwise the exact error
    /// of [`spec_validate`] comes back and nothing is constructed.
    pub fn new(plist: Value) -> (r: Result<Converter, ConverterError>)
        ensures
            match r {
                Ok(c) => spec_validate(plist@) == Ok::<_, ErrV>((c.table_v(), c.top_v()))
                    && c.cfg() == (Cfg { treat_all_as_classes: false, leave_null_values: false }),
                Err(e) => spec_validate(plist@) == Err::<
                    (Seq<ValueV>, Seq<(Seq<char>, ValueV)>),
                    ErrV,
                >(e@),
            },
    {
        let es = match &plist {
            Value::Dictionary(es) => es,
            _ => {
                return Err(ConverterError::WrongValueType("root", "Dictionary"));
            },
        };
        let archiver_key = String::from_str("$archiver");
        match dict_get(es, &archiver_key) {
            None => {
                return Err(ConverterError::MissingHeaderKey("$archiver"));
            },
            Some(a) => match a {
                Value::Text(name) => {
                    if !(*name == String::from_str("NSKeyedArchiver")) {
                        return Err(ConverterError::UnsupportedArchiver);
                    }
                },
                _ => {
                    return Err(ConverterError::WrongValueType("$archiver", "String"));
                },
            },
        }
        let version_key = String::from_str("$version");
        match dict_get(es, &version_key) {
            None => {
                return Err(ConverterError::MissingHeaderKey("$version"));
            },
            Some(v) => match v {
                Value::Integer(n) => {
                    if !(0 <= *n && *n <= u64::MAX as i128) {
                        return Err(ConverterError::WrongValueType("$version", "Number"));
                    }
                    if *n != 100000 {
                        return Err(ConverterError::UnsupportedArchiverVersion);
                    }
                },
                _ => {
                    return Err(ConverterError::WrongValueType("$version", "Number"));
                },
            },
        }
        let top_key = String::from_str("$top");
        let top: Vec<(String, Value)> = match dict_get(es, &top_key) {
            None => {
                return Err(ConverterError::MissingHeaderKey("$top"));
            },
            Some(t) => match t {
                Value::Dictionary(_) => match t.duplicate() {
                    Value::Dictionary(tes) => tes,
                    _ => unreached(),
                },
                _ => {
                    return Err(ConverterError::WrongValueType("$top", "Dictionary"));
                },
            },
        };
        let objects_key = String::from_str("$objects");
        let objects: Vec<Value> = match dict_get(es, &objects_key) {
            None => {
                return Err(ConverterError::MissingHeaderKey("$objects"));
            },
            Some(o) => match o {
                Value::Array(_) => match o.duplicate() {
                    Value::Array(table) => table,
                    _ => unreached(),
                },
                _ => {
                    return Err(ConverterError::WrongValueType("$objects", "Array"));
                },
            },
        };
        Ok(
            Converter {
                objects,
                top,
                treat_all_as_classes: false,
                leave_null_values: false,
            },
        )
    }

    /// The top-level assembler: resolve every root entry of the top map,
    /// in order, into the output mapping. A root that is not a reference,
    /// or whose reference resolves to absence, is an error.
    #[verifier::loop_isolation(false)]
    pub fn decode(&self) -> (r: Result<Value, ConverterError>)
        ensures
            match r {
                Ok(v) => spec_decode(self.table_v(), self.cfg(), self.top_v()) == Ok::<_, ErrV>(
                    v@,
                ),
                Err(e) => spec_decode(self.table_v(), self.cfg(), self.top_v()) == Err::<
                    ValueV,
                    ErrV,
                >(e@),
            },
    {
        let visited = make_unvisited(self.objects.len());
        let ghost full = self.top_v();
        proof {
            assert(full.skip(0) =~= full);
        }
        let mut out: Vec<(String, Value)> = Vec::new();
        let mut i: usize = 0;
        while i < self.top.len()
            invariant
                i <= self.top.len(),
                visited@ == all_unvisited(self.table_v().len()),
                spec_decode_roots(self.table_v(), self.cfg(), full) == match spec_decode_roots(
                    self.table_v(),
                    self.cfg(),
                    full.skip(i as int),
                ) {
                    Ok(rest) => Ok::<_, ErrV>(entries_v(out@) + rest),
                    Err(e) => Err(e),
                },
            decreases self.top.len() - i,
        {
            proof {
                assert(full.skip(i as int)[0] == full[i as int]);
                assert(full.skip(i as int).drop_first() =~= full.skip(i as int + 1));
            }
            let (name, vref) = &self.top[i];
            match vref {
                Value::Uid(u) => {
                    match self.decode_object(*u, &visited) {
                        Err(e) => {
                            return Err(e);
                        },
                        Ok(None) => {
                            return Err(ConverterError::InvalidObjectEncoding(*u));
                        },
                        Ok(Some(v)) => {
                            let ghost old_out = out@;
                            out.push((name.clone(), v));
                            proof {
                                match spec_decode_roots(
                                    self.table_v(),
                                    self.cfg(),
                                    full.skip(i as int + 1),
                                ) {
                                    Ok(rest) => {
                                        assert(entries_v(out@) =~= entries_v(old_out).push(
                                            (name@, out@.last().1@),
                                        ));
                                        assert(entries_v(old_out) + (seq![(name@, out@.last().1@)]
                                            + rest) =~= entries_v(out@) + rest);
                                    },
                                    Err(_) => {},
                                }
                            }
                        },
                    }
                },
                _ => {
                    return Err(ConverterError::ExpectedUIDValue(name.clone()));
                },
            }
            i = i + 1;
        }
        proof {
            assert(full.skip(self.top@.len() as int) =~= Seq::<(Seq<char>, ValueV)>::empty());
            assert(entries_v(out@) + Seq::<(Seq<char>, ValueV)>::empty() =~= entries_v(out@));
        }
        Ok(Value::Dictionary(out))
    }

    /// When set, dictionaries and arrays are decoded as generic classes
    /// and keep a `$classes` key; by default they become native structures.
    pub fn set_treat_all_as_classes(&mut self, value: bool)
        ensures
            final(self).treat_all_as_classes == value,
            final(self).leave_null_values == old(self).leave_null_values,
            final(self).objects == old(self).objects,
            final(self).top == old(self).top,
    {
        self.treat_all_as_classes = value;
    }

    /// Whether containers are all decoded as generic classes.
    pub fn treat_all_as_classes(&self) -> (r: bool)
        ensures
            r == self.treat_all_as_classes,
    {
        self.treat_all_as_classes
    }

    /// When set, `$null` sentinel strings are kept verbatim; by default
    /// they decode to absence and are omitted.
    pub fn set_leave_null_values(&mut self, value: bool)
        ensures
            final(self).leave_null_values == value,
            final(self).treat_all_as_classes == old(self).treat_all_as_classes,
            final(self).objects == old(self).objects,
            final(self).top == old(self).top,
    {
        self.leave_null_values = value;
    }

    /// Whether `$null` sentinel strings are kept verbatim.
    pub fn leave_null_values(&self) -> (r: bool)
        ensures
            r == self.leave_null_values,
    {
        self.leave_null_values
    }

    /// The class-name resolver: dereference a class reference and read the
    /// ordered ancestor chain out of its `$classes` entry.
    #[verifier::loop_isolation(false)]
    fn get_class_names(&self, cuid: u64) -> (r: Result<Vec<String>, ConverterError>)
        ensures
            match r {
                Ok(ns) => spec_class_names(self.table_v(), cuid) == Ok::<_, crate::error::ErrV>(
                    strings_v(ns@),
                ),
                Err(e) => spec_class_names(self.table_v(), cuid) == Err::<
                    Seq<Seq<char>>,
                    _,
                >(e@),
            },
    {
        if cuid >= self.objects.len() as u64 {
            return Err(ConverterError::InvalidObjectEncoding(cuid));
        }
        let node = &self.objects[cuid as usize];
        proof {
            assert(node@ == self.table_v()[cuid as int]);
        }
        let names = match node {
            Value::Dictionary(es) => {
                let classes_key = String::from_str("$classes");
                match dict_get(es, &classes_key) {
                    Some(c) => match c {
                        Value::Array(names) => names,
                        _ => {
                            return Err(ConverterError::InvalidObjectEncoding(cuid));
                        },
                    },
                    None => {
                        return Err(ConverterError::InvalidObjectEncoding(cuid));
                    },
                }
            },
            _ => {
                return Err(ConverterError::InvalidObjectEncoding(cuid));
            },
        };
        let ghost full = seq_v(names@);
        proof {
            assert(full.skip(0) =~= full);
        }
        let mut out: Vec<String> = Vec::new();
        let mut i: usize = 0;
        while i < names.len()
            invariant
                i <= names.len(),
                out@.len() == i as int,
                names_of(full, cuid) == match names_of(full.skip(i as int), cuid) {
                    Ok(rest) => Ok::<_, crate::error::ErrV>(strings_v(out@) + rest),
                    Err(e) => Err(e),
                },
            decreases names.len() - i,
        {
            proof {
                assert(full.skip(i as int)[0] == full[i as int]);
                assert(full.skip(i as int).drop_first() =~= full.skip(i as int + 1));
            }
            match &names[i] {
                Value::Text(s) => {
                    let ghost old_out = out@;
                    out.push(s.clone());
                    proof {
                        assert forall|rest: Seq<Seq<char>>| #[trigger]
                            (strings_v(out@) + rest) =~= strings_v(old_out) + (seq![s@] + rest)
                        by {
                            assert(strings_v(out@) =~= strings_v(old_out).push(s@));
                        }
                    }
                },
                _ => {
                    return Err(ConverterError::InvalidObjectEncoding(cuid));
                },
            }
            i = i + 1;
        }
        proof {
            assert(full.skip(names@.len() as int) =~= Seq::<ValueV>::empty());
            assert(strings_v(out@) + Seq::<Seq<char>>::empty() =~= strings_v(out@));
        }
        Ok(out)
    }

    /// The reference resolver: one reference to one resolved value,
    /// absence, or the terminal error, exactly as the model says.
    #[verifier::loop_isolation(false)]
    fn decode_object(&self, uid: u64, visited: &Vec<bool>) -> (r: Result<
        Option<Value>,
        ConverterError,
    >)
        requires
            visited@.len() == self.table_v().len(),
        ensures
            match r {
                Ok(Some(v)) => spec_decode_object(self.table_v(), self.cfg(), uid, visited@)
                    == Ok::<_, ErrV>(Some(v@)),
                Ok(None) => spec_decode_object(self.table_v(), self.cfg(), uid, visited@) == Ok::<
                    Option<ValueV>,
                    ErrV,
                >(None),
                Err(e) => spec_decode_object(self.table_v(), self.cfg(), uid, visited@) == Err::<
                    Option<ValueV>,
                    ErrV,
                >(e@),
            },
        decreases count_false(visited@), 0int, 0int,
    {
        if uid == 0 {
            return Ok(None);
        }
        if uid >= self.objects.len() as u64 {
            return Err(ConverterError::InvalidObjectReference(uid));
        }
        let idx = uid as usize;
        if visited[idx] {
            return Err(ConverterError::CyclicReference(uid));
        }
        let node = &self.objects[idx];
        proof {
            assert(node@ == self.table_v()[uid as int]);
        }
        if !self.leave_null_values {
            match node {
                Value::Text(s) => {
                    if *s == String::from_str("$null") {
                        return Ok(None);
                    }
                },
                _ => {},
            }
        }
        if is_container_node(node) {
            let es = match node {
                Value::Dictionary(d) => d,
                _ => unreached(),
            };
            let class_key = String::from_str("$class");
            let cuid: u64 = match dict_get(es, &class_key) {
                Some(c) => match c {
                    Value::Uid(u) => *u,
                    _ => unreached(),
                },
                None => unreached(),
            };
            proof {
                assert(cuid == class_ref(node@));
            }
            let names = match self.get_class_names(cuid) {
                Ok(ns) => ns,
                Err(e) => {
                    return Err(e);
                },
            };
            if names.len() == 0 {
                return Ok(None);
            }
            let marked = mark(visited, idx);
            proof {
                lemma_count_false_update(visited@, idx as int);
                assert(strings_v(names@)[0] == names@[0]@);
            }
            let first = &names[0];
            if !self.treat_all_as_classes && (*first == String::from_str("NSDictionary") || *first
                == String::from_str("NSMutableDictionary")) {
                match self.decode_dict(uid, es, &marked) {
                    Ok(v) => Ok(Some(v)),
                    Err(e) => Err(e),
                }
            } else if !self.treat_all_as_classes && (*first == String::from_str("NSArray")
                || *first == String::from_str("NSMutableArray")) {
                match self.decode_array(uid, es, &marked) {
                    Ok(v) => Ok(Some(v)),
                    Err(e) => Err(e),
                }
            } else {
                match self.decode_custom_class(uid, es, &marked) {
                    Ok(v) => Ok(Some(v)),
                    Err(e) => Err(e),
                }
            }
        } else {
            Ok(Some(node.duplicate()))
        }
    }

    /// The native array specializer.
    #[verifier::loop_isolation(false)]
    fn decode_array(&self, uid: u64, entries: &Vec<(String, Value)>, visited: &Vec<bool>) -> (r:
        Result<Value, ConverterError>)
        requires
            visited@.len() == self.table_v().len(),
        ensures
            match r {
                Ok(v) => spec_decode_array(
                    self.table_v(),
                    self.cfg(),
                    uid,
                    entries_v(entries@),
                    visited@,
                ) == Ok::<_, ErrV>(Some(v@)),
                Err(e) => spec_decode_array(
                    self.table_v(),
                    self.cfg(),
                    uid,
                    entries_v(entries@),
                    visited@,
                ) == Err::<Option<ValueV>, ErrV>(e@),
            },
        decreases count_false(visited@), 1int, 0int,
    {
        let objects_key = String::from_str("NS.objects");
        let relems = match dict_get(entries, &objects_key) {
            Some(v) => match v {
                Value::Array(a) => a,
                _ => {
                    return Err(ConverterError::InvalidObjectEncoding(uid));
                },
            },
            None => {
                return Err(ConverterError::InvalidObjectEncoding(uid));
            },
        };
        let ghost full = seq_v(relems@);
        proof {
            assert(full.skip(0) =~= full);
        }
        let mut out: Vec<Value> = Vec::new();
        let mut i: usize = 0;
        while i < relems.len()
            invariant
                i <= relems.len(),
                spec_decode_array_refs(self.table_v(), self.cfg(), full, visited@) == match
                    spec_decode_array_refs(
                    self.table_v(),
                    self.cfg(),
                    full.skip(i as int),
                    visited@,
                ) {
                    Ok(rest) => Ok::<_, ErrV>(seq_v(out@) + rest),
                    Err(e) => Err(e),
                },
            decreases relems.len() - i,
        {
            proof {
                assert(full.skip(i as int)[0] == full[i as int]);
                assert(full.skip(i as int).drop_first() =~= full.skip(i as int + 1));
            }
            match &relems[i] {
                Value::Uid(u) => {
                    match self.decode_object(*u, visited) {
                        Err(e) => {
                            return Err(e);
                        },
                        Ok(None) => {},
                        Ok(Some(v)) => {
                            let ghost old_out = out@;
                            out.push(v);
                            proof {
                                let tail = spec_decode_array_refs(
                                    self.table_v(),
                                    self.cfg(),
                                    full.skip(i as int + 1),
                                    visited@,
                                );
                                match tail {
                                    Ok(rest) => {
                                        assert(seq_v(out@) =~= seq_v(old_out).push(v@));
                                        assert(seq_v(old_out) + (seq![v@] + rest) =~= seq_v(out@)
                                            + rest);
                                    },
                                    Err(_) => {},
                                }
                            }
                        },
                    }
                },
                _ => {
                    return Err(ConverterError::ExpectedUIDValue(String::from_str("NS.objects")));
                },
            }
            i = i + 1;
        }
        proof {
            assert(full.skip(relems@.len() as int) =~= Seq::<ValueV>::empty());
            assert(seq_v(out@) + Seq::<ValueV>::empty() =~= seq_v(out@));
        }
        Ok(Value::Array(out))
    }

    /// One strict reference list: every element must be a reference and
    /// must resolve to a value. Shared by the dictionary specializer for
    /// its key and value lists.
    #[verifier::loop_isolation(false)]
    fn decode_strict_refs(
        &self,
        owner: u64,
        key: &'static str,
        relems: &Vec<Value>,
        visited: &Vec<bool>,
    ) -> (r: Result<Vec<Value>, ConverterError>)
        requires
            visited@.len() == self.table_v().len(),
        ensures
            match r {
                Ok(vs) => spec_decode_strict_refs(
                    self.table_v(),
                    self.cfg(),
                    owner,
                    key@,
                    seq_v(relems@),
                    visited@,
                ) == Ok::<_, ErrV>(seq_v(vs@)),
                Err(e) => spec_decode_strict_refs(
                    self.table_v(),
                    self.cfg(),
                    owner,
                    key@,
                    seq_v(relems@),
                    visited@,
                ) == Err::<Seq<ValueV>, ErrV>(e@),
            },
        decreases count_false(visited@), 1int, 0int,
    {
        let ghost full = seq_v(relems@);
        proof {
            assert(full.skip(0) =~= full);
        }
        let mut out: Vec<Value> = Vec::new();
        let mut i: usize = 0;
        while i < relems.len()
            invariant
                i <= relems.len(),
                spec_decode_strict_refs(self.table_v(), self.cfg(), owner, key@, full, visited@)
                    == match spec_decode_strict_refs(
                    self.table_v(),
                    self.cfg(),
                    owner,
                    key@,
                    full.skip(i as int),
                    visited@,
                ) {
                    Ok(rest) => Ok::<_, ErrV>(seq_v(out@) + rest),
                    Err(e) => Err(e),
                },
            decreases relems.len() - i,
        {
            proof {
                assert(full.skip(i as int)[0] == full[i as int]);
                assert(full.skip(i as int).drop_first() =~= full.skip(i as int + 1));
            }
            match &relems[i] {
                Value::Uid(u) => {
                    match self.decode_object(*u, visited) {
                        Err(e) => {
                            return Err(e);
                        },
                        Ok(None) => {
                            return Err(ConverterError::InvalidObjectEncoding(owner));
                        },
                        Ok(Some(v)) => {
                            let ghost old_out = out@;
                            out.push(v);
                            proof {
                                let tail = spec_decode_strict_refs(
                                    self.table_v(),
                                    self.cfg(),
                                    owner,
                                    key@,
                                    full.skip(i as int + 1),
                                    visited@,
                                );
                                match tail {
                                    Ok(rest) => {
                                        assert(seq_v(out@) =~= seq_v(old_out).push(v@));
                                        assert(seq_v(old_out) + (seq![v@] + rest) =~= seq_v(out@)
                                            + rest);
                                    },
                                    Err(_) => {},
                                }
                            }
                        },
                    }
                },
                _ => {
                    return Err(ConverterError::ExpectedUIDValue(String::from_str(key)));
                },
            }
            i = i + 1;
        }
        proof {
            assert(full.skip(relems@.len() as int) =~= Seq::<ValueV>::empty());
            assert(seq_v(out@) + Seq::<ValueV>::empty() =~= seq_v(out@));
        }
        Ok(out)
    }

    /// The native dictionary specializer.
    #[verifier::loop_isolation(false)]
    fn decode_dict(&self, uid: u64, entries: &Vec<(String, Value)>, visited: &Vec<bool>) -> (r:
        Result<Value, ConverterError>)
        requires
            visited@.len() == self.table_v().len(),
        ensures
            match r {
                Ok(v) => spec_decode_dict(
                    self.table_v(),
                    self.cfg(),
                    uid,
                    entries_v(entries@),
                    visited@,
                ) == Ok::<_, ErrV>(Some(v@)),
                Err(e) => spec_decode_dict(
                    self.table_v(),
                    self.cfg(),
                    uid,
                    entries_v(entries@),
                    visited@,
                ) == Err::<Option<ValueV>, ErrV>(e@),
            },
        decreases count_false(visited@), 2int, 0int,
    {
        let keys_key = String::from_str("NS.keys");
        let rkeys = match dict_get(entries, &keys_key) {
            Some(v) => match v {
                Value::Array(a) => a,
                _ => {
                    return Err(ConverterError::InvalidObjectEncoding(uid));
                },
            },
            None => {
                return Err(ConverterError::InvalidObjectEncoding(uid));
            },
        };
        let objects_key = String::from_str("NS.objects");
        let rvals = match dict_get(entries, &objects_key) {
            Some(v) => match v {
                Value::Array(a) => a,
                _ => {
                    return Err(ConverterError::InvalidObjectEncoding(uid));
                },
            },
            None => {
                return Err(ConverterError::InvalidObjectEncoding(uid));
            },
        };
        let dkeys = match self.decode_strict_refs(uid, "NS.keys", rkeys, visited) {
            Ok(vs) => vs,
            Err(e) => {
                return Err(e);
            },
        };
        let dvals = match self.decode_strict_refs(uid, "NS.objects", rvals, visited) {
            Ok(vs) => vs,
            Err(e) => {
                return Err(e);
            },
        };
        if dkeys.len() != dvals.len() {
            return Err(ConverterError::InvalidObjectEncoding(uid));
        }
        let ghost dk = seq_v(dkeys@);
        let ghost dv = seq_v(dvals@);
        proof {
            assert(dk.skip(0) =~= dk);
            assert(dv.skip(0) =~= dv);
        }
        let mut out: Vec<Value> = Vec::new();
        let mut i: usize = 0;
        while i < dkeys.len()
            invariant
                i <= dkeys.len(),
                out@.len() == i as int,
                kv_records(dk, dv) =~= seq_v(out@) + kv_records(
                    dk.skip(i as int),
                    dv.skip(i as int),
                ),
            decreases dkeys.len() - i,
        {
            proof {
                assert(dk.skip(i as int)[0] == dk[i as int]);
                assert(dv.skip(i as int)[0] == dv[i as int]);
                assert(dk.skip(i as int).drop_first() =~= dk.skip(i as int + 1));
                assert(dv.skip(i as int).drop_first() =~= dv.skip(i as int + 1));
            }
            let mut rec: Vec<(String, Value)> = Vec::new();
            rec.push((String::from_str("key"), dkeys[i].duplicate()));
            rec.push((String::from_str("value"), dvals[i].duplicate()));
            let ghost grec = rec@;
            proof {
                assert(grec.len() == 2);
                assert(grec[0].0@ == "key"@);
                assert(grec[0].1@ == dk[i as int]);
                assert(grec[1].0@ == "value"@);
                assert(grec[1].1@ == dv[i as int]);
                assert(entries_v(grec)[0] == (grec[0].0@, grec[0].1@));
                assert(entries_v(grec)[1] == (grec[1].0@, grec[1].1@));
                let want = seq![("key"@, dk[i as int]), ("value"@, dv[i as int])];
                assert(entries_v(grec) =~= want);
            }
            let record = Value::Dictionary(rec);
            proof {
                assert(record@ == kv_record(dk[i as int], dv[i as int]));
            }
            let ghost old_out = out@;
            out.push(record);
            proof {
                assert(seq_v(out@) =~= seq_v(old_out).push(kv_record(dk[i as int], dv[i as int])));
                assert(seq_v(old_out) + (seq![kv_record(dk[i as int], dv[i as int])] + kv_records(
                    dk.skip(i as int + 1),
                    dv.skip(i as int + 1),
                )) =~= seq_v(out@) + kv_records(dk.skip(i as int + 1), dv.skip(i as int + 1)));
            }
            i = i + 1;
        }
        proof {
            assert(dk.skip(dkeys@.len() as int) =~= Seq::<ValueV>::empty());
            assert(dv.skip(dvals@.len() as int) =~= Seq::<ValueV>::empty());
            assert(seq_v(out@) + Seq::<ValueV>::empty() =~= seq_v(out@));
        }
        let r = Value::Array(out);
        proof {
            assert(r@->Array_0 =~= kv_records(dk, dv));
        }
        Ok(r)
    }

    /// The generic-class specializer.
    #[verifier::loop_isolation(false)]
    fn decode_custom_class(
        &self,
        uid: u64,
        entries: &Vec<(String, Value)>,
        visited: &Vec<bool>,
    ) -> (r: Result<Value, ConverterError>)
        requires
            visited@.len() == self.table_v().len(),
        ensures
            match r {
                Ok(v) => spec_decode_custom_class(
                    self.table_v(),
                    self.cfg(),
                    uid,
                    entries_v(entries@),
                    visited@,
                ) == Ok::<_, ErrV>(Some(v@)),
                Err(e) => spec_decode_custom_class(
                    self.table_v(),
                    self.cfg(),
                    uid,
                    entries_v(entries@),
                    visited@,
                ) == Err::<Option<ValueV>, ErrV>(e@),
            },
        decreases count_false(visited@), 1int, 0int,
    {
        let ghost full = entries_v(entries@);
        proof {
            assert(full.skip(0) =~= full);
        }
        let mut out: Vec<(String, Value)> = Vec::new();
        let mut i: usize = 0;
        while i < entries.len()
            invariant
                i <= entries.len(),
                spec_decode_fields(self.table_v(), self.cfg(), uid, full, visited@) == match
                    spec_decode_fields(
                    self.table_v(),
                    self.cfg(),
                    uid,
                    full.skip(i as int),
                    visited@,
                ) {
                    Ok(rest) => Ok::<_, ErrV>(entries_v(out@) + rest),
                    Err(e) => Err(e),
                },
            decreases entries.len() - i,
        {
            proof {
                assert(full.skip(i as int)[0] == full[i as int]);
                assert(full.skip(i as int).drop_first() =~= full.skip(i as int + 1));
            }
            let ghost tail_fields = spec_decode_fields(
                self.table_v(),
                self.cfg(),
                uid,
                full.skip(i as int + 1),
                visited@,
            );
            let (k, v) = &entries[i];
            if *k == String::from_str("$class") {
                let u: u64 = match v {
                    Value::Uid(u) => *u,
                    _ => {
                        return Err(ConverterError::ExpectedUIDValue(k.clone()));
                    },
                };
                let meta = match self.decode_object(u, visited) {
                    Err(e) => {
                        return Err(e);
                    },
                    Ok(None) => {
                        return Err(ConverterError::InvalidObjectEncoding(uid));
                    },
                    Ok(Some(m)) => m,
                };
                match &meta {
                    Value::Dictionary(mes) => {
                        let classes_key = String::from_str("$classes");
                        match dict_get(mes, &classes_key) {
                            Some(chain) => {
                                let ghost old_out = out@;
                                out.push((String::from_str("$classes"), chain.duplicate()));
                                proof {
                                    match tail_fields {
                                        Ok(rest) => {
                                            assert(entries_v(out@) =~= entries_v(old_out).push(
                                                ("$classes"@, chain@),
                                            ));
                                            assert(entries_v(old_out) + (seq![("$classes"@, chain@)]
                                                + rest) =~= entries_v(out@) + rest);
                                        },
                                        Err(_) => {},
                                    }
                                }
                            },
                            None => {
                                return Err(ConverterError::InvalidObjectEncoding(uid));
                            },
                        }
                    },
                    _ => {
                        return Err(ConverterError::InvalidObjectEncoding(uid));
                    },
                }
            } else {
                match v {
                    Value::Uid(u) => {
                        match self.decode_object(*u, visited) {
                            Err(e) => {
                                return Err(e);
                            },
                            Ok(None) => {},
                            Ok(Some(dv)) => {
                                let ghost old_out = out@;
                                out.push((k.clone(), dv));
                                proof {
                                    match tail_fields {
                                        Ok(rest) => {
                                            assert(entries_v(out@) =~= entries_v(old_out).push(
                                                (k@, out@.last().1@),
                                            ));
                                            assert(entries_v(old_out) + (seq![
                                                (k@, out@.last().1@),
                                            ] + rest) =~= entries_v(out@) + rest);
                                        },
                                        Err(_) => {},
                                    }
                                }
                            },
                        }
                    },
                    Value::Array(arr) => {
                        let ghost full_a = seq_v(arr@);
                        proof {
                            assert(full_a.skip(0) =~= full_a);
                        }
                        let mut dec: Vec<Value> = Vec::new();
                        let mut j: usize = 0;
                        while j < arr.len()
                            invariant
                                j <= arr.len(),
                                spec_decode_field_refs(self.table_v(), self.cfg(), full_a, visited@)
                                    =~= seq_v(dec@) + spec_decode_field_refs(
                                    self.table_v(),
                                    self.cfg(),
                                    full_a.skip(j as int),
                                    visited@,
                                ),
                            decreases arr.len() - j,
                        {
                            proof {
                                assert(full_a.skip(j as int)[0] == full_a[j as int]);
                                assert(full_a.skip(j as int).drop_first() =~= full_a.skip(
                                    j as int + 1,
                                ));
                            }
                            match &arr[j] {
                                Value::Uid(u) => {
                                    match self.decode_object(*u, visited) {
                                        Ok(Some(v2)) => {
                                            let ghost old_dec = dec@;
                                            dec.push(v2);
                                            proof {
                                                assert(seq_v(dec@) =~= seq_v(old_dec).push(
                                                    dec@.last()@,
                                                ));
                                                assert(seq_v(old_dec) + (seq![dec@.last()@]
                                                    + spec_decode_field_refs(
                                                    self.table_v(),
                                                    self.cfg(),
                                                    full_a.skip(j as int + 1),
                                                    visited@,
                                                )) =~= seq_v(dec@) + spec_decode_field_refs(
                                                    self.table_v(),
                                                    self.cfg(),
                                                    full_a.skip(j as int + 1),
                                                    visited@,
                                                ));
                                            }
                                        },
                                        _ => {},
                                    }
                                },
                                _ => {},
                            }
                            j = j + 1;
                        }
                        proof {
                            assert(full_a.skip(arr@.len() as int) =~= Seq::<ValueV>::empty());
                            assert(seq_v(dec@) + Seq::<ValueV>::empty() =~= seq_v(dec@));
                        }
                        let ghost old_out = out@;
                        out.push((k.clone(), Value::Array(dec)));
                        proof {
                            match tail_fields {
                                Ok(rest) => {
                                    assert(entries_v(out@) =~= entries_v(old_out).push(
                                        (k@, out@.last().1@),
                                    ));
                                    assert(entries_v(old_out) + (seq![(k@, out@.last().1@)] + rest)
                                        =~= entries_v(out@) + rest);
                                },
                                Err(_) => {},
                            }
                        }
                    },
                    _ => {
                        let ghost old_out = out@;
                        out.push((k.clone(), v.duplicate()));
                        proof {
                            match tail_fields {
                                Ok(rest) => {
                                    assert(entries_v(out@) =~= entries_v(old_out).push(
                                        (k@, out@.last().1@),
                                    ));
                                    assert(entries_v(old_out) + (seq![(k@, out@.last().1@)] + rest)
                                        =~= entries_v(out@) + rest);
                                },
                                Err(_) => {},
                            }
                        }
                    },
                }
            }
            i = i + 1;
        }
        proof {
            assert(full.skip(entries@.len() as int) =~= Seq::<(Seq<char>, ValueV)>::empty());
            assert(entries_v(out@) + Seq::<(Seq<char>, ValueV)>::empty() =~= entries_v(out@));
        }
        Ok(Value::Dictionary(out))
    }
}

} // verus!
