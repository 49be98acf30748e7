//! Parameter updates: which struct a component's payload has, the payload that
//! an operator's edits make, and the stamped upload.

use vstd::prelude::*;

use crate::config_manager::{
    component_names_match, hinted, name_of_uid, names_match, AppManifest, ComponentDict, FieldDef,
    StructDef, StructDictionary,
};
use crate::json::{Json, Number};
use crate::params::{
    encodable, encode_at, encoded_into, entries_text, fields_text, flat_hash, text_hash,
    variable_hash,
};
use crate::text::{dec, hex_u32_value, hex_upper, join_texts, joined, push_dec, push_hex, same_text, texts};
use crate::text_map::{lookup, TextMap};
use crate::tprm::{stamp_v3, stamped, TprmError};

verus! {

// ------------------------------------------------------------- struct search

/// Whether a struct describes tunable parameters.
pub open spec fn is_tunable(s: StructDef) -> bool {
    s.category@ == "TUNABLE_PARAM"@ && s.fields@.len() > 0
}

/// The first tunable struct from `from` on, of the given size if one is given.
pub open spec fn first_tunable(
    structs: Seq<(Seq<char>, StructDef)>,
    from: int,
    size: Option<usize>,
) -> Option<int>
    decreases structs.len() - from,
{
    if from >= structs.len() {
        None
    } else if is_tunable(structs[from].1) && (size matches Some(n) ==> structs[from].1.size == n) {
        Some(from)
    } else {
        first_tunable(structs, from + 1, size)
    }
}

/// A component's struct for a payload: the first tunable one of the payload's
/// size, else its first tunable one (the dictionary may leave out alignment
/// padding).
pub open spec fn best_tunable(structs: Seq<(Seq<char>, StructDef)>, size: usize) -> Option<int> {
    match first_tunable(structs, 0, Some(size)) {
        Some(i) => Some(i),
        None => first_tunable(structs, 0, None),
    }
}

/// The first component from `from` on that matches a name and has a tunable
/// struct, with that struct.
pub open spec fn tunable_by_name(
    components: Seq<(Seq<char>, ComponentDict)>,
    from: int,
    name: Seq<char>,
    size: usize,
) -> Option<(int, int)>
    decreases components.len() - from,
{
    if from >= components.len() {
        None
    } else {
        let dict = components[from].1;
        match best_tunable(dict.structs@, size) {
            Some(i) if names_match(dict.component@, name) => Some((from, i)),
            _ => tunable_by_name(components, from + 1, name, size),
        }
    }
}

/// The first tunable struct of the payload's size in any component.
pub open spec fn tunable_by_size(
    components: Seq<(Seq<char>, ComponentDict)>,
    from: int,
    size: usize,
) -> Option<(int, int)>
    decreases components.len() - from,
{
    if from >= components.len() {
        None
    } else {
        match first_tunable(components[from].1.structs@, 0, Some(size)) {
            Some(i) => Some((from, i)),
            None => tunable_by_size(components, from + 1, size),
        }
    }
}

/// The struct of a component's tunable payload: by the component's name where
/// the manifest gives one, else by size alone.
pub open spec fn tunable_struct(
    components: Seq<(Seq<char>, ComponentDict)>,
    size: usize,
    name: Option<Seq<char>>,
) -> Option<(int, int)> {
    match name {
        Some(n) => match tunable_by_name(components, 0, n, size) {
            Some(p) => Some(p),
            None => tunable_by_size(components, 0, size),
        },
        None => tunable_by_size(components, 0, size),
    }
}

/// The name the manifest gives a component.
pub open spec fn manifest_name(manifest: Option<&AppManifest>, uid: u32) -> Option<Seq<char>> {
    match manifest {
        Some(m) => name_of_uid(m.components@, uid),
        None => None,
    }
}

fn tunable(s: &StructDef) -> (r: bool)
    ensures
        r == is_tunable(*s),
{
    same_text(s.category.as_str(), "TUNABLE_PARAM") && s.fields.len() > 0
}

fn find_tunable(structs: &TextMap<StructDef>, size: Option<usize>) -> (r: Option<usize>)
    ensures
        match r {
            Some(i) => first_tunable(structs@, 0, size) == Some(i as int) && i < structs@.len(),
            None => first_tunable(structs@, 0, size) is None,
        },
{
    let n: usize = structs.len();
    for i in 0..n
        invariant
            n == structs@.len(),
            first_tunable(structs@, 0, size) == first_tunable(structs@, i as int, size),
    {
        let (_, s) = structs.entry(i);
        let sized = match size {
            Some(n) => s.size == n,
            None => true,
        };
        if sized && tunable(s) {
            return Some(i);
        }
    }
    None
}

fn find_best(structs: &TextMap<StructDef>, size: usize) -> (r: Option<usize>)
    ensures
        match r {
            Some(i) => best_tunable(structs@, size) == Some(i as int) && i < structs@.len(),
            None => best_tunable(structs@, size) is None,
        },
{
    match find_tunable(structs, Some(size)) {
        Some(i) => Some(i),
        None => find_tunable(structs, None),
    }
}

fn find_by_name(dicts: &StructDictionary, name: &str, size: usize) -> (r: Option<(usize, usize)>)
    ensures
        match r {
            Some((c, i)) => {
                &&& tunable_by_name(dicts.components@, 0, name@, size) == Some(
                    (c as int, i as int),
                )
                &&& c < dicts.components@.len()
                &&& i < dicts.components@[c as int].1.structs@.len()
            },
            None => tunable_by_name(dicts.components@, 0, name@, size) is None,
        },
{
    let n: usize = dicts.components.len();
    for c in 0..n
        invariant
            n == dicts.components@.len(),
            tunable_by_name(dicts.components@, 0, name@, size) == tunable_by_name(
                dicts.components@,
                c as int,
                name@,
                size,
            ),
    {
        let (_, dict) = dicts.components.entry(c);
        if component_names_match(dict.component.as_str(), name) {
            match find_best(&dict.structs, size) {
                Some(i) => {
                    return Some((c, i));
                },
                None => {},
            }
        }
    }
    None
}

fn find_by_size(dicts: &StructDictionary, size: usize) -> (r: Option<(usize, usize)>)
    ensures
        match r {
            Some((c, i)) => {
                &&& tunable_by_size(dicts.components@, 0, size) == Some((c as int, i as int))
                &&& c < dicts.components@.len()
                &&& i < dicts.components@[c as int].1.structs@.len()
            },
            None => tunable_by_size(dicts.components@, 0, size) is None,
        },
{
    let n: usize = dicts.components.len();
    for c in 0..n
        invariant
            n == dicts.components@.len(),
            tunable_by_size(dicts.components@, 0, size) == tunable_by_size(
                dicts.components@,
                c as int,
                size,
            ),
    {
        let (_, dict) = dicts.components.entry(c);
        match find_tunable(&dict.structs, Some(size)) {
            Some(i) => {
                return Some((c, i));
            },
            None => {},
        }
    }
    None
}

/// A struct found in the dictionaries: its component, its name, itself.
pub open spec fn is_struct_at(
    components: Seq<(Seq<char>, ComponentDict)>,
    at: (int, int),
    component: Seq<char>,
    name: Seq<char>,
    sdef: StructDef,
) -> bool {
    let dict = components[at.0].1;
    &&& 0 <= at.0 < components.len()
    &&& 0 <= at.1 < dict.structs@.len()
    &&& component == dict.component@
    &&& name == dict.structs@[at.1].0
    &&& sdef == dict.structs@[at.1].1
}

/// Find the matching TUNABLE_PARAM struct for a component.
///
/// Strategy:
/// 1. If the manifest provides a component name for this UID, find that
///    component's TUNABLE_PARAM struct (preferring the payload's size, but the
///    dictionary may not account for alignment padding).
/// 2. Fall back to exact size match across all components.
pub fn find_tunable_struct<'a>(
    dicts: &'a StructDictionary,
    data_len: usize,
    full_uid: u32,
    manifest: Option<&AppManifest>,
) -> (r: Option<(&'a str, &'a str, &'a StructDef)>)
    ensures
        ({
            let found = tunable_struct(
                dicts.components@,
                data_len,
                manifest_name(manifest, full_uid),
            );
            match r {
                Some((component, name, sdef)) => found matches Some(at) && is_struct_at(
                    dicts.components@,
                    at,
                    component@,
                    name@,
                    *sdef,
                ),
                None => found is None,
            }
        }),
{
    let name = match manifest {
        Some(m) => m.component_name(full_uid),
        None => None,
    };
    let by_name = match name {
        Some(n) => find_by_name(dicts, n, data_len),
        None => None,
    };
    let found = match by_name {
        Some(p) => Some(p),
        None => find_by_size(dicts, data_len),
    };
    match found {
        Some((c, i)) => {
            let (_, dict) = dicts.components.entry(c);
            let (sname, sdef) = dict.structs.entry(i);
            Some((dict.component.as_str(), sname.as_str(), sdef))
        },
        None => None,
    }
}

// --------------------------------------------------------------- header pair

/// The tunable structs of a component that have a size.
pub open spec fn sized_tunables(structs: Seq<(Seq<char>, StructDef)>) -> Seq<StructDef>
    decreases structs.len(),
{
    if structs.len() == 0 {
        Seq::empty()
    } else {
        let before = sized_tunables(structs.drop_last());
        if is_tunable(structs.last().1) && structs.last().1.size > 0 {
            before.push(structs.last().1)
        } else {
            before
        }
    }
}

/// The sized tunable structs of every component that is searched.
pub open spec fn all_tunables(
    components: Seq<(Seq<char>, ComponentDict)>,
    hint: Option<Seq<char>>,
) -> Seq<StructDef>
    decreases components.len(),
{
    if components.len() == 0 {
        Seq::empty()
    } else {
        let before = all_tunables(components.drop_last(), hint);
        let dict = components.last().1;
        if hinted(dict, hint) {
            before + sized_tunables(dict.structs@)
        } else {
            before
        }
    }
}

/// Whether `i` is the smallest struct of a list apart from `skip`, and the
/// earliest of that size.
pub open spec fn is_smallest(list: Seq<StructDef>, i: int, skip: int) -> bool {
    &&& 0 <= i < list.len()
    &&& i != skip
    &&& forall|j: int|
        0 <= j < list.len() && j != skip ==> list[i].size <= (#[trigger] list[j]).size
    &&& forall|j: int| 0 <= j < i && j != skip ==> list[i].size < (#[trigger] list[j]).size
}

/// Whether `hdr` and `ent` are the smallest and the next smallest of a list.
pub open spec fn is_header_pair(list: Seq<StructDef>, hdr: StructDef, ent: StructDef) -> bool {
    exists|h: int, e: int|
        #![trigger is_smallest(list, h, -1), is_smallest(list, e, h)]
        is_smallest(list, h, -1) && is_smallest(list, e, h) && hdr == list[h] && ent == list[e]
}

/// What a list of references refers to.
pub open spec fn referents(list: Seq<&StructDef>) -> Seq<StructDef> {
    Seq::new(list.len(), |i: int| *list[i])
}

fn collect_tunables<'a>(dicts: &'a StructDictionary, hint: Option<&str>) -> (out: Vec<
    &'a StructDef,
>)
    ensures
        referents(out@) == all_tunables(
            dicts.components@,
            crate::config_manager::hint_text(hint),
        ),
{
    let mut out: Vec<&'a StructDef> = Vec::new();
    let ghost h = crate::config_manager::hint_text(hint);
    assert(referents(out@) =~= Seq::empty());
    let n: usize = dicts.components.len();
    for c in 0..n
        invariant
            n == dicts.components@.len(),
            h == crate::config_manager::hint_text(hint),
            referents(out@) == all_tunables(dicts.components@.take(c as int), h),
    {
        let (_, dict) = dicts.components.entry(c);
        assert(dicts.components@.take(c + 1).drop_last() =~= dicts.components@.take(c as int));
        let searched = match hint {
            Some(t) => component_names_match(dict.component.as_str(), t),
            None => true,
        };
        if searched {
            let ghost start = referents(out@);
            let m: usize = dict.structs.len();
            assert(start + Seq::<StructDef>::empty() =~= start);
            for i in 0..m
                invariant
                    m == dict.structs@.len(),
                    referents(out@) == start + sized_tunables(dict.structs@.take(i as int)),
            {
                let (_, s) = dict.structs.entry(i);
                assert(dict.structs@.take(i + 1).drop_last() =~= dict.structs@.take(i as int));
                let ghost before = referents(out@);
                if s.size > 0 && tunable(s) {
                    out.push(s);
                    assert(referents(out@) =~= before.push(*s));
                }
                assert(referents(out@) =~= start + sized_tunables(
                    dict.structs@.take(i + 1),
                ));
            }
            assert(dict.structs@.take(m as int) =~= dict.structs@);
        }
    }
    assert(dicts.components@.take(n as int) =~= dicts.components@);
    out
}

fn smallest(list: &Vec<&StructDef>, skip: Option<usize>) -> (r: usize)
    requires
        skip is None ==> list@.len() >= 1,
        skip matches Some(k) ==> list@.len() >= 2 && k < list@.len(),
    ensures
        is_smallest(
            referents(list@),
            r as int,
            match skip {
                Some(k) => k as int,
                None => -1,
            },
        ),
{
    let ghost k = match skip {
        Some(k) => k as int,
        None => -1,
    };
    let first: usize = match skip {
        Some(0) => 1,
        _ => 0,
    };
    let mut best: usize = first;
    let ghost all = referents(list@);
    for i in 0..list.len()
        invariant
            all == referents(list@),
            best < list@.len(),
            best != k,
            k == (match skip {
                Some(k) => k as int,
                None => -1,
            }),
            best == first || best < i,
            first == (if k == 0 {
                1int
            } else {
                0
            }),
            forall|j: int| 0 <= j < i && j != k ==> all[best as int].size <= (#[trigger] all[j]).size,
            forall|j: int|
                0 <= j < best && j != k ==> all[best as int].size < (#[trigger] all[j]).size,
    {
        let skipped = match skip {
            Some(s) => s == i,
            None => false,
        };
        if !skipped && list[i].size < list[best].size {
            best = i;
        }
    }
    best
}

// -------------------------------------------------------------------- edits

/// An operator's edits: values by field name, and for a header/entries payload
/// the values of each entry.
#[derive(Debug)]
pub struct ParamEdits {
    pub fields: TextMap<Json>,
    pub entries: Option<Vec<TextMap<Json>>>,
    pub variable_length: bool,
}

/// Why an update cannot be prepared.
#[derive(Debug)]
pub enum UpdateError {
    /// The dictionaries hold no header and entry struct for the component.
    NoPair,
    /// A header/entries update without entries.
    MissingEntries,
    /// The dictionaries hold no tunable struct for a payload of this size.
    NoStruct(usize),
    /// Values outside their rails.
    Constraints(Vec<String>),
    /// Edited fields of a header/entries payload that cannot be encoded.
    UnencodableEntries(Vec<String>),
    /// Edited fields of a single struct that cannot be encoded.
    Unencodable(Vec<String>),
    /// The payload cannot be stamped.
    Stamp(TprmError),
}

impl UpdateError {
    /// The operator-facing text of the error.
    pub open spec fn text(self) -> Seq<char> {
        match self {
            UpdateError::NoPair => "Cannot find header+entry struct pair"@,
            UpdateError::MissingEntries => "Missing entries"@,
            UpdateError::NoStruct(n) => "No matching TUNABLE_PARAM struct found for "@ + dec(
                n as nat,
            ) + " bytes"@,
            UpdateError::Constraints(list) => "Constraint violation(s): "@ + joined(
                texts(list@),
                "; "@,
            ),
            UpdateError::UnencodableEntries(list) => "Cannot encode edited field(s): "@ + joined(
                texts(list@),
                ", "@,
            ),
            UpdateError::Unencodable(list) => "Cannot encode edited field(s): "@ + joined(
                texts(list@),
                ", "@,
            ) + " -- unsupported type/size or wrong value type"@,
            UpdateError::Stamp(e) => "TPRM stamp failed: "@ + e.text(),
        }
    }

    /// The operator-facing text of the error.
    pub fn message(&self) -> (t: String)
        ensures
            t@ == self.text(),
    {
        match self {
            UpdateError::NoPair => "Cannot find header+entry struct pair".to_owned(),
            UpdateError::MissingEntries => "Missing entries".to_owned(),
            UpdateError::NoStruct(n) => {
                let mut t = "No matching TUNABLE_PARAM struct found for ".to_owned();
                push_dec(&mut t, *n as u64);
                t.append(" bytes");
                t
            },
            UpdateError::Constraints(list) => {
                let mut t = "Constraint violation(s): ".to_owned();
                t.append(join_texts(list, "; ").as_str());
                t
            },
            UpdateError::UnencodableEntries(list) => {
                let mut t = "Cannot encode edited field(s): ".to_owned();
                t.append(join_texts(list, ", ").as_str());
                t
            },
            UpdateError::Unencodable(list) => {
                let mut t = "Cannot encode edited field(s): ".to_owned();
                t.append(join_texts(list, ", ").as_str());
                t.append(" -- unsupported type/size or wrong value type");
                t
            },
            UpdateError::Stamp(e) => {
                let mut t = "TPRM stamp failed: ".to_owned();
                t.append(e.message().as_str());
                t
            },
        }
    }

    /// The HTTP status of the error: unprocessable for values outside their
    /// rails, bad request for everything else.
    pub fn status(&self) -> (code: u16)
        ensures
            code == (if self is Constraints {
                422
            } else {
                400int
            }),
    {
        match self {
            UpdateError::Constraints(_) => 422,
            _ => 400,
        }
    }
}

/// The structs an update writes.
#[derive(Debug, Clone, Copy)]
pub enum UpdatePlan<'a> {
    /// One struct.
    Flat(&'a StructDef),
    /// A header and any number of entries.
    Variable(&'a StructDef, &'a StructDef),
}

/// Choose the structs that an update writes. A header/entries update takes the
/// two smallest tunable structs of the component: header the smaller, entry
/// the larger. Any other takes the one struct that matches the payload.
pub fn plan_update<'a>(
    dicts: &'a StructDictionary,
    manifest: Option<&AppManifest>,
    full_uid: u32,
    data_len: usize,
    edits: &ParamEdits,
) -> (r: Result<UpdatePlan<'a>, UpdateError>)
    ensures
        ({
            let list = all_tunables(dicts.components@, manifest_name(manifest, full_uid));
            let found = tunable_struct(
                dicts.components@,
                data_len,
                manifest_name(manifest, full_uid),
            );
            if edits.variable_length {
                if list.len() < 2 {
                    r matches Err(e) && e is NoPair
                } else if edits.entries is None {
                    r matches Err(e) && e is MissingEntries
                } else {
                    r matches Ok(p) && p matches UpdatePlan::Variable(hdr, ent) && is_header_pair(
                        list,
                        *hdr,
                        *ent,
                    )
                }
            } else {
                match found {
                    Some(at) => {
                        let sdef = dicts.components@[at.0].1.structs@[at.1].1;
                        if sdef.size == 0 {
                            r matches Err(e) && e == UpdateError::NoStruct(data_len)
                        } else {
                            r matches Ok(p) && p matches UpdatePlan::Flat(s) && *s == sdef
                        }
                    },
                    None => r matches Err(e) && e == UpdateError::NoStruct(data_len),
                }
            }
        }),
{
    if edits.variable_length {
        let hint = match manifest {
            Some(m) => m.component_name(full_uid),
            None => None,
        };
        let list = collect_tunables(dicts, hint);
        assert(referents(list@).len() == list@.len());
        if list.len() < 2 {
            return Err(UpdateError::NoPair);
        }
        if edits.entries.is_none() {
            return Err(UpdateError::MissingEntries);
        }
        let h: usize = smallest(&list, None);
        let e: usize = smallest(&list, Some(h));
        Ok(UpdatePlan::Variable(list[h], list[e]))
    } else {
        match find_tunable_struct(dicts, data_len, full_uid, manifest) {
            Some((_, _, sdef)) => if sdef.size == 0 {
                Err(UpdateError::NoStruct(data_len))
            } else {
                Ok(UpdatePlan::Flat(sdef))
            },
            None => Err(UpdateError::NoStruct(data_len)),
        }
    }
}

// -------------------------------------------------------------------- rails

/// A number that an edit puts into a field with rails.
#[derive(Debug, Clone, Copy)]
pub struct RailCheck<'a> {
    pub field: &'a FieldDef,
    pub number: Number,
}

/// What a list of checks checks.
pub open spec fn checks_of(list: Seq<RailCheck>) -> Seq<(FieldDef, Number)> {
    Seq::new(list.len(), |i: int| (*list[i].field, list[i].number))
}

/// A field with each of some numbers.
pub open spec fn with_numbers(f: FieldDef, numbers: Seq<Number>) -> Seq<(FieldDef, Number)> {
    Seq::new(numbers.len(), |i: int| (f, numbers[i]))
}

/// Every number that the edits put into a field with rails, in field order.
/// Arrays apply their rails per element.
pub open spec fn rail_checks(fields: Seq<FieldDef>, edits: Seq<(Seq<char>, Json)>) -> Seq<
    (FieldDef, Number),
>
    decreases fields.len(),
{
    if fields.len() == 0 {
        Seq::empty()
    } else {
        let f = fields.last();
        let before = rail_checks(fields.drop_last(), edits);
        match lookup(edits, f.name@) {
            Some(value) if f.constraints is Some => before + with_numbers(f, value.numbers()),
            _ => before,
        }
    }
}

/// The checks of the first `n` entries.
pub open spec fn entry_checks(fields: Seq<FieldDef>, entries: Seq<TextMap<Json>>) -> Seq<
    (FieldDef, Number),
>
    decreases entries.len(),
{
    if entries.len() == 0 {
        Seq::empty()
    } else {
        entry_checks(fields, entries.drop_last()) + rail_checks(fields, entries.last()@)
    }
}

/// The entries of a header/entries update.
pub open spec fn entries_of(edits: ParamEdits) -> Seq<TextMap<Json>> {
    match edits.entries {
        Some(e) => e@,
        None => Seq::empty(),
    }
}

/// Every check an update needs.
pub open spec fn plan_checks(plan: UpdatePlan, edits: ParamEdits) -> Seq<(FieldDef, Number)> {
    match plan {
        UpdatePlan::Flat(s) => rail_checks(s.fields@, edits.fields@),
        UpdatePlan::Variable(hdr, ent) => rail_checks(hdr.fields@, edits.fields@) + entry_checks(
            ent.fields@,
            entries_of(edits),
        ),
    }
}

/// "field: reason" for every check whose verdict gives a reason.
pub open spec fn violations(checks: Seq<(FieldDef, Number)>, verdicts: Seq<Option<String>>) -> Seq<
    Seq<char>,
>
    decreases checks.len(),
{
    if checks.len() == 0 {
        Seq::empty()
    } else {
        let before = violations(checks.drop_last(), verdicts);
        match verdicts[checks.len() - 1] {
            Some(reason) => before.push(checks.last().0.name@ + ": "@ + reason@),
            None => before,
        }
    }
}

fn push_checks<'a>(
    out: &mut Vec<RailCheck<'a>>,
    fields: &'a Vec<FieldDef>,
    edits: &TextMap<Json>,
)
    ensures
        checks_of(final(out)@) == checks_of(old(out)@) + rail_checks(fields@, edits@),
{
    let ghost start = checks_of(out@);
    assert(start + Seq::<(FieldDef, Number)>::empty() =~= start);
    for i in 0..fields.len()
        invariant
            start == checks_of(old(out)@),
            checks_of(out@) == start + rail_checks(fields@.take(i as int), edits@),
    {
        let f = &fields[i];
        assert(fields@.take(i + 1).drop_last() =~= fields@.take(i as int));
        let ghost before = checks_of(out@);
        match edits.get(f.name.as_str()) {
            Some(value) => {
                if f.constraints.is_some() {
                    let numbers = value.to_numbers();
                    let ghost all = numbers@;
                    assert(before + with_numbers(*f, all.take(0)) =~= before);
                    for k in 0..numbers.len()
                        invariant
                            all == numbers@,
                            checks_of(out@) == before + with_numbers(*f, all.take(k as int)),
                    {
                        let ghost prior = checks_of(out@);
                        out.push(RailCheck { field: f, number: numbers[k] });
                        assert(checks_of(out@) =~= prior.push((*f, all[k as int])));
                        assert(checks_of(out@) =~= before + with_numbers(*f, all.take(k + 1)));
                    }
                    assert(all.take(all.len() as int) =~= all);
                }
            },
            None => {},
        }
        assert(checks_of(out@) =~= start + rail_checks(fields@.take(i + 1), edits@));
    }
    assert(fields@.take(fields@.len() as int) =~= fields@);
}

/// The numbers that have to be held against their rails before an update is
/// prepared.
pub fn constraint_checks<'a>(plan: &UpdatePlan<'a>, edits: &ParamEdits) -> (out: Vec<
    RailCheck<'a>,
>)
    ensures
        checks_of(out@) == plan_checks(*plan, *edits),
{
    let mut out: Vec<RailCheck<'a>> = Vec::new();
    let ghost none = checks_of(out@);
    assert(none =~= Seq::empty());
    match *plan {
        UpdatePlan::Flat(s) => {
            push_checks(&mut out, &s.fields, &edits.fields);
            assert(checks_of(out@) =~= plan_checks(*plan, *edits));
        },
        UpdatePlan::Variable(hdr, ent) => {
            push_checks(&mut out, &hdr.fields, &edits.fields);
            let ghost start = checks_of(out@);
            assert(start =~= rail_checks(hdr.fields@, edits.fields@));
            assert(start + Seq::<(FieldDef, Number)>::empty() =~= start);
            match &edits.entries {
                Some(entries) => {
                    for i in 0..entries.len()
                        invariant
                            checks_of(out@) == start + entry_checks(
                                ent.fields@,
                                entries@.take(i as int),
                            ),
                    {
                        assert(entries@.take(i + 1).drop_last() =~= entries@.take(i as int));
                        push_checks(&mut out, &ent.fields, &entries[i]);
                        assert(checks_of(out@) =~= start + entry_checks(
                            ent.fields@,
                            entries@.take(i + 1),
                        ));
                    }
                    assert(entries@.take(entries@.len() as int) =~= entries@);
                },
                None => {},
            }
        },
    }
    out
}

/// The texts of the violations: "field: reason" for every check whose verdict
/// gives a reason.
pub fn constraint_violations(checks: &Vec<RailCheck>, verdicts: &Vec<Option<String>>) -> (out:
    Vec<String>)
    requires
        verdicts@.len() == checks@.len(),
    ensures
        texts(out@) == violations(checks_of(checks@), verdicts@),
{
    let ghost all = checks_of(checks@);
    let mut out: Vec<String> = Vec::new();
    assert(texts(out@) =~= Seq::empty());
    for i in 0..checks.len()
        invariant
            all == checks_of(checks@),
            verdicts@.len() == checks@.len(),
            texts(out@) == violations(all.take(i as int), verdicts@),
    {
        assert(all.take(i + 1).drop_last() =~= all.take(i as int));
        match &verdicts[i] {
            Some(reason) => {
                let mut t = checks[i].field.name.clone();
                t.append(": ");
                t.append(reason.as_str());
                let ghost before = texts(out@);
                out.push(t);
                assert(texts(out@) =~= before.push(t@));
            },
            None => {},
        }
    }
    assert(all.take(all.len() as int) =~= all);
    out
}

// ------------------------------------------------------------- payload build

/// The buffer after the edited fields of a struct are written, and the names of
/// the edited fields that could not be. The struct starts at `base`; names are
/// labelled.
pub open spec fn edited(
    buf: Seq<u8>,
    fields: Seq<FieldDef>,
    base: int,
    edits: Seq<(Seq<char>, Json)>,
    label: Seq<char>,
) -> (Seq<u8>, Seq<Seq<char>>)
    decreases fields.len(),
{
    if fields.len() == 0 {
        (buf, Seq::empty())
    } else {
        let before = edited(buf, fields.drop_last(), base, edits, label);
        let f = fields.last();
        match lookup(edits, f.name@) {
            Some(value) => (
                encoded_into(before.0, base, f, value),
                if encodable(before.0.len(), base, f, value) {
                    before.1
                } else {
                    before.1.push(label + f.name@)
                },
            ),
            None => before,
        }
    }
}

/// The label of an entry's fields.
pub open spec fn entry_label(i: nat) -> Seq<char> {
    "entry["@ + dec(i) + "]."@
}

/// The buffer after the edited fields of the entries are written, and the
/// labelled names of those that could not be.
pub open spec fn edited_entries(
    start: (Seq<u8>, Seq<Seq<char>>),
    hdr_size: int,
    ent: StructDef,
    entries: Seq<TextMap<Json>>,
) -> (Seq<u8>, Seq<Seq<char>>)
    decreases entries.len(),
{
    if entries.len() == 0 {
        start
    } else {
        let n = (entries.len() - 1) as nat;
        let before = edited_entries(start, hdr_size, ent, entries.drop_last());
        let now = edited(
            before.0,
            ent.fields@,
            hdr_size + n * ent.size,
            entries.last()@,
            entry_label(n),
        );
        (now.0, before.1 + now.1)
    }
}

/// Zero bytes.
pub open spec fn zeros(n: nat) -> Seq<u8> {
    Seq::new(n, |i: int| 0u8)
}

/// What the edits make of a single struct: on top of the payload that was read,
/// when it has the struct's size, so that what was not edited is kept.
pub open spec fn flat_body(s: StructDef, original: Seq<u8>, edits: ParamEdits) -> (
    Seq<u8>,
    Seq<Seq<char>>,
) {
    let start = if original.len() == s.size {
        original
    } else {
        zeros(s.size as nat)
    };
    edited(start, s.fields@, 0, edits.fields@, Seq::empty())
}

/// The size of a header/entries payload.
pub open spec fn variable_size(hdr: StructDef, ent: StructDef, edits: ParamEdits) -> nat {
    (hdr.size + entries_of(edits).len() * ent.size) as nat
}

/// What the edits make of a header and its entries, from zeros.
pub open spec fn variable_body(hdr: StructDef, ent: StructDef, edits: ParamEdits) -> (
    Seq<u8>,
    Seq<Seq<char>>,
) {
    edited_entries(
        edited(
            zeros(variable_size(hdr, ent, edits)),
            hdr.fields@,
            0,
            edits.fields@,
            Seq::empty(),
        ),
        hdr.size as int,
        ent,
        entries_of(edits),
    )
}

/// The layout hash of a single struct: the producer's statement when the
/// dictionary has one, recomputed from the fields when it has none.
pub open spec fn flat_layout_hash(s: StructDef) -> u32 {
    match s.stated_hash() {
        Some(h) => h,
        None => text_hash(fields_text(s.fields@, 0), s.size as nat),
    }
}

/// The layout hash of a header and its entries.
pub open spec fn variable_layout_hash(hdr: StructDef, ent: StructDef, edits: ParamEdits) -> u32 {
    let n = entries_of(edits).len();
    text_hash(
        fields_text(hdr.fields@, 0) + entries_text(ent, hdr.size as nat, n),
        variable_size(hdr, ent, edits),
    )
}

/// A payload ready to upload.
#[derive(Debug)]
pub struct PreparedUpdate {
    /// The payload.
    pub binary: Vec<u8>,
    pub layout_hash: u32,
    /// The payload with its prelude.
    pub stamped: Vec<u8>,
}

/// Whether `u` is the stamped upload of a payload.
pub open spec fn is_upload(u: PreparedUpdate, full_uid: u32, body: Seq<u8>, hash: u32) -> bool {
    &&& u.binary@ == body
    &&& u.layout_hash == hash
    &&& u.stamped@ == stamped(full_uid, hash, body)
}

fn apply_edits(
    buf: &mut Vec<u8>,
    bad: &mut Vec<String>,
    fields: &Vec<FieldDef>,
    base: usize,
    edits: &TextMap<Json>,
    label: &str,
)
    ensures
        ({
            let r = edited(old(buf)@, fields@, base as int, edits@, label@);
            &&& final(buf)@ == r.0
            &&& texts(final(bad)@) == texts(old(bad)@) + r.1
            &&& final(buf)@.len() == old(buf)@.len()
        }),
{
    let ghost start = texts(bad@);
    assert(start + Seq::<Seq<char>>::empty() =~= start);
    for i in 0..fields.len()
        invariant
            start == texts(old(bad)@),
            buf@ == edited(old(buf)@, fields@.take(i as int), base as int, edits@, label@).0,
            texts(bad@) == start + edited(
                old(buf)@,
                fields@.take(i as int),
                base as int,
                edits@,
                label@,
            ).1,
            buf@.len() == old(buf)@.len(),
    {
        let f = &fields[i];
        assert(fields@.take(i + 1).drop_last() =~= fields@.take(i as int));
        match edits.get(f.name.as_str()) {
            Some(value) => {
                if !encode_at(buf, base, f, value) {
                    let mut t = label.to_owned();
                    t.append(f.name.as_str());
                    let ghost before = texts(bad@);
                    bad.push(t);
                    assert(texts(bad@) =~= before.push(t@));
                }
            },
            None => {},
        }
        assert(texts(bad@) =~= start + edited(
            old(buf)@,
            fields@.take(i + 1),
            base as int,
            edits@,
            label@,
        ).1);
    }
    assert(fields@.take(fields@.len() as int) =~= fields@);
}

fn zero_bytes(n: usize) -> (v: Vec<u8>)
    ensures
        v@ == zeros(n as nat),
{
    let v: Vec<u8> = vec![0u8; n];
    assert(v@ =~= zeros(n as nat));
    v
}

fn label_of_entry(i: usize) -> (t: String)
    ensures
        t@ == entry_label(i as nat),
{
    let mut t = "entry[".to_owned();
    push_dec(&mut t, i as u64);
    t.append("].");
    t
}

fn finish(full_uid: u32, hash: u32, binary: Vec<u8>) -> (r: Result<PreparedUpdate, UpdateError>)
    ensures
        match r {
            Ok(u) => binary@.len() <= 0xFFFF && is_upload(u, full_uid, binary@, hash),
            Err(e) => binary@.len() > 0xFFFF && e == UpdateError::Stamp(TprmError::TooLarge),
        },
{
    match stamp_v3(full_uid, hash, binary.as_slice()) {
        Ok(stamped) => Ok(PreparedUpdate { binary, layout_hash: hash, stamped }),
        Err(e) => Err(UpdateError::Stamp(e)),
    }
}

fn prepare_flat(s: &StructDef, full_uid: u32, original: &[u8], edits: &ParamEdits) -> (r: Result<
    PreparedUpdate,
    UpdateError,
>)
    ensures
        ({
            let body = flat_body(*s, original@, *edits);
            if body.1.len() > 0 {
                r matches Err(e) && e matches UpdateError::Unencodable(list) && texts(list@)
                    == body.1
            } else if body.0.len() > 0xFFFF {
                r matches Err(e) && e == UpdateError::Stamp(TprmError::TooLarge)
            } else {
                r matches Ok(u) && is_upload(u, full_uid, body.0, flat_layout_hash(*s))
            }
        }),
{
    let mut buf = if original.len() == s.size {
        vstd::slice::slice_to_vec(original)
    } else {
        zero_bytes(s.size)
    };
    let mut bad: Vec<String> = Vec::new();
    let ghost none = texts(bad@);
    let empty = String::new();
    apply_edits(&mut buf, &mut bad, &s.fields, 0, &edits.fields, empty.as_str());
    assert(none =~= Seq::empty());
    assert(texts(bad@) =~= flat_body(*s, original@, *edits).1);
    if bad.len() > 0 {
        return Err(UpdateError::Unencodable(bad));
    }
    let hash: u32 = match s.layout_hash_u32() {
        Some(h) => h,
        None => flat_hash(s),
    };
    finish(full_uid, hash, buf)
}

fn prepare_variable(
    hdr: &StructDef,
    ent: &StructDef,
    full_uid: u32,
    edits: &ParamEdits,
    entries: &Vec<TextMap<Json>>,
) -> (r: Result<PreparedUpdate, UpdateError>)
    requires
        edits.entries == Some(*entries),
    ensures
        ({
            let body = variable_body(*hdr, *ent, *edits);
            if variable_size(*hdr, *ent, *edits) > usize::MAX {
                r matches Err(e) && e == UpdateError::Stamp(TprmError::TooLarge)
            } else if body.1.len() > 0 {
                r matches Err(e) && e matches UpdateError::UnencodableEntries(list) && texts(
                    list@,
                ) == body.1
            } else if body.0.len() > 0xFFFF {
                r matches Err(e) && e == UpdateError::Stamp(TprmError::TooLarge)
            } else {
                r matches Ok(u) && is_upload(
                    u,
                    full_uid,
                    body.0,
                    variable_layout_hash(*hdr, *ent, *edits),
                )
            }
        }),
{
    let n: usize = entries.len();
    assert(0 <= n * ent.size <= 0xFFFF_FFFF_FFFF_FFFF * 0xFFFF_FFFF_FFFF_FFFF)
        by (nonlinear_arith)
        requires
            0 <= n <= 0xFFFF_FFFF_FFFF_FFFF,
            0 <= ent.size <= 0xFFFF_FFFF_FFFF_FFFF,
    ;
    let entries_size: u128 = (n as u128) * (ent.size as u128);
    if entries_size > (usize::MAX - hdr.size) as u128 {
        return Err(UpdateError::Stamp(TprmError::TooLarge));
    }
    let total: usize = hdr.size + entries_size as usize;
    let mut buf = zero_bytes(total);
    let mut bad: Vec<String> = Vec::new();
    let ghost none = texts(bad@);
    let empty = String::new();
    apply_edits(&mut buf, &mut bad, &hdr.fields, 0, &edits.fields, empty.as_str());
    assert(none =~= Seq::empty());
    let ghost head = edited(
        zeros(total as nat),
        hdr.fields@,
        0,
        edits.fields@,
        Seq::empty(),
    );
    assert(texts(bad@) =~= head.1);
    for i in 0..n
        invariant
            n == entries@.len(),
            hdr.size + n * ent.size <= usize::MAX,
            buf@ == edited_entries(head, hdr.size as int, *ent, entries@.take(i as int)).0,
            texts(bad@) == edited_entries(
                head,
                hdr.size as int,
                *ent,
                entries@.take(i as int),
            ).1,
    {
        assert(entries@.take(i + 1).drop_last() =~= entries@.take(i as int));
        assert(i * ent.size <= n * ent.size && i * ent.size >= 0) by (nonlinear_arith)
            requires
                0 <= i < n,
        ;
        let base: usize = hdr.size + i * ent.size;
        let label = label_of_entry(i);
        apply_edits(&mut buf, &mut bad, &ent.fields, base, &entries[i], label.as_str());
    }
    assert(entries@.take(n as int) =~= entries@);
    if bad.len() > 0 {
        assert(texts(bad@).len() > 0);
        return Err(UpdateError::UnencodableEntries(bad));
    }
    assert(texts(bad@).len() == 0);
    let hash: u32 = variable_hash(hdr, ent, n);
    finish(full_uid, hash, buf)
}

/// Prepare a planned update: hold the verdicts on its rails, encode the edits,
/// compute the layout hash and stamp the prelude. Nothing is prepared when a
/// value is outside its rails or an edited field cannot be encoded.
pub fn prepare_update(
    plan: &UpdatePlan,
    full_uid: u32,
    original: &[u8],
    edits: &ParamEdits,
    verdicts: &Vec<Option<String>>,
) -> (r: Result<PreparedUpdate, UpdateError>)
    requires
        plan is Variable ==> edits.entries is Some,
        verdicts@.len() == plan_checks(*plan, *edits).len(),
    ensures
        ({
            let broken = violations(plan_checks(*plan, *edits), verdicts@);
            if broken.len() > 0 {
                r matches Err(e) && e matches UpdateError::Constraints(list) && texts(list@)
                    == broken
            } else {
                match *plan {
                    UpdatePlan::Flat(s) => {
                        let body = flat_body(*s, original@, *edits);
                        if body.1.len() > 0 {
                            r matches Err(e) && e matches UpdateError::Unencodable(list)
                                && texts(list@) == body.1
                        } else if body.0.len() > 0xFFFF {
                            r matches Err(e) && e == UpdateError::Stamp(TprmError::TooLarge)
                        } else {
                            r matches Ok(u) && is_upload(
                                u,
                                full_uid,
                                body.0,
                                flat_layout_hash(*s),
                            )
                        }
                    },
                    UpdatePlan::Variable(hdr, ent) => {
                        let body = variable_body(*hdr, *ent, *edits);
                        if variable_size(*hdr, *ent, *edits) > usize::MAX {
                            r matches Err(e) && e == UpdateError::Stamp(TprmError::TooLarge)
                        } else if body.1.len() > 0 {
                            r matches Err(e) && e matches UpdateError::UnencodableEntries(list)
                                && texts(list@) == body.1
                        } else if body.0.len() > 0xFFFF {
                            r matches Err(e) && e == UpdateError::Stamp(TprmError::TooLarge)
                        } else {
                            r matches Ok(u) && is_upload(
                                u,
                                full_uid,
                                body.0,
                                variable_layout_hash(*hdr, *ent, *edits),
                            )
                        }
                    },
                }
            }
        }),
        r matches Ok(u) ==> {
            &&& crate::tprm::verified(u.stamped@) matches Ok((p, body))
            &&& p.full_uid == full_uid
            &&& p.layout_hash == u.layout_hash
            &&& body == u.binary@
        },
        (r is Ok && plan is Flat && plan->Flat_0.layout_hash is Some) ==> {
            hex_u32_value(plan->Flat_0.layout_hash->0@) matches Some(h) ==> r->Ok_0.layout_hash == h
        },
{
    let checks = constraint_checks(plan, edits);
    assert(checks_of(checks@).len() == checks@.len());
    let broken = constraint_violations(&checks, verdicts);
    assert(texts(broken@).len() == broken@.len());
    if broken.len() > 0 {
        return Err(UpdateError::Constraints(broken));
    }
    let r = match *plan {
        UpdatePlan::Flat(s) => prepare_flat(s, full_uid, original, edits),
        UpdatePlan::Variable(hdr, ent) => match &edits.entries {
            Some(entries) => prepare_variable(hdr, ent, full_uid, edits, entries),
            None => Err(UpdateError::MissingEntries),
        },
    };
    proof {
        if let Ok(u) = &r {
            crate::tprm::verify_undoes_stamp(full_uid, u.layout_hash, u.binary@);
        }
    }
    r
}

/// The audit detail of an update.
pub open spec fn detail_text(uid: u32, bytes: nat, stamped_bytes: nat, fields: nat) -> Seq<char> {
    "uid=0x"@ + hex_upper(uid as nat, 6) + " bytes="@ + dec(bytes) + " stamped_bytes="@ + dec(
        stamped_bytes,
    ) + " field_count="@ + dec(fields)
}

/// The audit detail of an update; the staged flow is marked as such.
pub fn update_detail(uid: u32, update: &PreparedUpdate, fields: usize, staged: bool) -> (t: String)
    ensures
        t@ == detail_text(uid, update.binary@.len(), update.stamped@.len(), fields as nat) + (
        if staged {
            " flow=staged-verify"@
        } else {
            Seq::empty()
        }),
{
    let mut t = "uid=0x".to_owned();
    push_hex(&mut t, uid as u64, 6, true);
    t.append(" bytes=");
    push_dec(&mut t, update.binary.len() as u64);
    t.append(" stamped_bytes=");
    push_dec(&mut t, update.stamped.len() as u64);
    t.append(" field_count=");
    push_dec(&mut t, fields as u64);
    let ghost body = t@;
    if staged {
        t.append(" flow=staged-verify");
    }
    assert(body + Seq::<char>::empty() =~= body);
    t
}

/// An update that was prepared verifies: the vehicle's own check of the upload
/// finds the component's address, the layout hash and the payload that was
/// built.
pub proof fn prepared_updates_verify(
    u: PreparedUpdate,
    full_uid: u32,
    body: Seq<u8>,
    hash: u32,
)
    requires
        is_upload(u, full_uid, body, hash),
        body.len() <= 0xFFFF,
    ensures
        crate::tprm::verified(u.stamped@) == Ok::<_, TprmError>(
            (crate::tprm::prelude_for(full_uid, hash, body), body),
        ),
{
    crate::tprm::verify_undoes_stamp(full_uid, hash, body);
}

/// Edits change nothing but the fields they name: a byte that lies in no edited
/// field is what it was.
pub proof fn unedited_bytes_are_kept(
    buf: Seq<u8>,
    fields: Seq<FieldDef>,
    base: int,
    edits: Seq<(Seq<char>, Json)>,
    label: Seq<char>,
    i: int,
)
    requires
        0 <= base,
        0 <= i < buf.len(),
        forall|k: int|
            0 <= k < fields.len() && lookup(edits, (#[trigger] fields[k]).name@) is Some ==> !(base
                + fields[k].offset <= i < base + fields[k].offset + fields[k].size),
    ensures
        edited(buf, fields, base, edits, label).0.len() == buf.len(),
        edited(buf, fields, base, edits, label).0[i] == buf[i],
    decreases fields.len(),
{
    if fields.len() > 0 {
        unedited_bytes_are_kept(buf, fields.drop_last(), base, edits, label, i);
        let before = edited(buf, fields.drop_last(), base, edits, label);
        let f = fields.last();
        match lookup(edits, f.name@) {
            Some(value) => {
                crate::params::encoding_is_local(before.0, base, f, value, i);
            },
            None => {},
        }
    }
}

/// No edits, no change: an update without edits rebuilds the payload that was
/// read.
pub proof fn no_edits_no_change(
    buf: Seq<u8>,
    fields: Seq<FieldDef>,
    base: int,
    label: Seq<char>,
)
    ensures
        edited(buf, fields, base, Seq::empty(), label) == (buf, Seq::<Seq<char>>::empty()),
    decreases fields.len(),
{
    if fields.len() > 0 {
        no_edits_no_change(buf, fields.drop_last(), base, label);
    }
}

// ---------------------------------------------------------------------- laws

/// The producer's statement is the hash that the vehicle is sent: when the dictionary
/// states a layout hash for the struct that an update writes, the prepared update has
/// that hash, it stands in the prelude of the stamped bytes, and the vehicle's own check
/// reads it there. Only without a statement is the hash computed from the fields.
pub proof fn stated_hashes_are_stamped(
    s: StructDef,
    u: PreparedUpdate,
    full_uid: u32,
    body: Seq<u8>,
)
    requires
        body.len() <= 0xFFFF,
        is_upload(u, full_uid, body, flat_layout_hash(s)),
    ensures
        ({
            let stated = match s.layout_hash {
                Some(t) => hex_u32_value(t@),
                None => None,
            };
            let h = match stated {
                Some(h) => h,
                None => text_hash(fields_text(s.fields@, 0), s.size as nat),
            };
            &&& u.layout_hash == h
            &&& crate::wire::le_value(u.stamped@, 12, 4) == h
            &&& crate::tprm::verified(u.stamped@) matches Ok((p, b))
            &&& p.layout_hash == h
            &&& p.full_uid == full_uid
            &&& b == body
            &&& u.binary@ == body
        }),
{
    crate::tprm::verify_undoes_stamp(full_uid, u.layout_hash, body);
    crate::tprm::payloads_verify_by_their_bytes(u.stamped@);
}

/// A hash that the dictionary states as "0x" and hexadecimal digits is the hash that is
/// stamped, whatever the fields of the struct are.
pub proof fn written_hashes_are_stamped(s: StructDef, h: u32, width: nat, upper: bool)
    requires
        s.layout_hash matches Some(t) && t@ == "0x"@ + crate::text::zero_padded(
            crate::text::digits(h as nat, 16, upper),
            width,
        ),
    ensures
        flat_layout_hash(s) == h,
{
    crate::text::hex_reads_back(h, width, upper);
}

/// An edited field holds its new value: where no other edited field lies over it, the
/// bytes of an edited field that can be encoded are those of the value.
pub proof fn edited_fields_hold_their_values(
    buf: Seq<u8>,
    fields: Seq<FieldDef>,
    base: int,
    edits: Seq<(Seq<char>, Json)>,
    label: Seq<char>,
    k: int,
    value: Json,
)
    requires
        0 <= base,
        0 <= k < fields.len(),
        lookup(edits, fields[k].name@) == Some(value),
        encodable(buf.len(), base, fields[k], value),
        forall|j: int|
            0 <= j < fields.len() && j != k && lookup(edits, (#[trigger] fields[j]).name@) is Some
                ==> fields[j].offset + fields[j].size <= fields[k].offset || fields[k].offset
                + fields[k].size <= fields[j].offset,
    ensures
        ({
            let after = edited(buf, fields, base, edits, label).0;
            let at = base + fields[k].offset;
            &&& after.len() == buf.len()
            &&& crate::params::value_bytes(fields[k], value) == Some(
                after.subrange(at, at + fields[k].size),
            )
        }),
    decreases fields.len(),
{
    let front = fields.drop_last();
    let before = edited(buf, front, base, edits, label).0;
    let after = edited(buf, fields, base, edits, label).0;
    let f = fields.last();
    let at = base + fields[k].offset;
    let size = fields[k].size as int;
    edits_keep_the_length(buf, front, base, edits, label);
    if k < front.len() {
        assert(front[k] == fields[k]);
        assert forall|j: int|
            0 <= j < front.len() && j != k && lookup(edits, (#[trigger] front[j]).name@)
                is Some implies front[j].offset + front[j].size <= front[k].offset
            || front[k].offset + front[k].size <= front[j].offset by {
            assert(front[j] == fields[j]);
        }
        edited_fields_hold_their_values(buf, front, base, edits, label, k, value);
        if lookup(edits, f.name@) is Some {
            assert(fields[fields.len() - 1] == f);
            let v = lookup(edits, f.name@)->0;
            crate::params::written_fits_its_field(f, v);
            assert forall|i: int| at <= i < at + size implies after[i] == before[i] by {
                crate::params::encoding_is_local(before, base, f, v, i);
            }
            assert(after.len() == before.len()) by {
                if before.len() > 0 {
                    edits_keep_the_length(buf, fields, base, edits, label);
                }
            }
            assert(after.subrange(at, at + size) =~= before.subrange(at, at + size));
        }
    } else {
        crate::params::value_fills_its_field(f, value);
        crate::params::written_fits_its_field(f, value);
        let b = crate::params::value_bytes(f, value)->0;
        assert(after =~= before.take(at) + b + before.skip(at + b.len()));
        assert(after.subrange(at, at + size) =~= b);
    }
}

proof fn edits_keep_the_length(
    buf: Seq<u8>,
    fields: Seq<FieldDef>,
    base: int,
    edits: Seq<(Seq<char>, Json)>,
    label: Seq<char>,
)
    requires
        0 <= base,
    ensures
        edited(buf, fields, base, edits, label).0.len() == buf.len(),
    decreases fields.len(),
{
    if fields.len() > 0 {
        edits_keep_the_length(buf, fields.drop_last(), base, edits, label);
        let f = fields.last();
        match lookup(edits, f.name@) {
            Some(value) => {
                crate::params::written_fits_its_field(f, value);
            },
            None => {},
        }
    }
}

/// Every edit that cannot be encoded is named, under its label, and nothing else is: the
/// list is empty if and only if every edited field can be written.
pub proof fn unencodable_edits_are_named(
    buf: Seq<u8>,
    fields: Seq<FieldDef>,
    base: int,
    edits: Seq<(Seq<char>, Json)>,
    label: Seq<char>,
)
    requires
        0 <= base,
    ensures
        ({
            let bad = edited(buf, fields, base, edits, label).1;
            &&& bad.len() == 0 <==> forall|k: int|
                0 <= k < fields.len() ==> can_take(buf.len(), base, #[trigger] fields[k], edits)
            &&& forall|k: int|
                0 <= k < fields.len() && !can_take(buf.len(), base, #[trigger] fields[k], edits)
                    ==> bad.contains(label + fields[k].name@)
        }),
    decreases fields.len(),
{
    if fields.len() > 0 {
        let front = fields.drop_last();
        let f = fields.last();
        unencodable_edits_are_named(buf, front, base, edits, label);
        edits_keep_the_length(buf, front, base, edits, label);
        let before = edited(buf, front, base, edits, label).1;
        let bad = edited(buf, fields, base, edits, label).1;
        let all = forall|k: int|
            0 <= k < fields.len() ==> can_take(buf.len(), base, #[trigger] fields[k], edits);
        let most = forall|k: int|
            0 <= k < front.len() ==> can_take(buf.len(), base, #[trigger] front[k], edits);
        assert(all == (most && can_take(buf.len(), base, f, edits))) by {
            if all {
                assert(can_take(buf.len(), base, fields[fields.len() - 1], edits));
                assert forall|k: int| 0 <= k < front.len() implies can_take(
                    buf.len(),
                    base,
                    #[trigger] front[k],
                    edits,
                ) by {
                    assert(can_take(buf.len(), base, fields[k], edits));
                }
            }
            if most && can_take(buf.len(), base, f, edits) {
                assert forall|k: int| 0 <= k < fields.len() implies can_take(
                    buf.len(),
                    base,
                    #[trigger] fields[k],
                    edits,
                ) by {
                    if k < front.len() {
                        assert(can_take(buf.len(), base, front[k], edits));
                    }
                }
            }
        }
        assert forall|k: int|
            0 <= k < fields.len() && !can_take(
                buf.len(),
                base,
                #[trigger] fields[k],
                edits,
            ) implies bad.contains(label + fields[k].name@) by {
            if k < front.len() {
                assert(front[k] == fields[k]);
                assert(before.contains(label + front[k].name@));
                let i = choose|i: int| 0 <= i < before.len() && before[i] == label + front[k].name@;
                assert(bad[i] == before[i]);
            } else {
                assert(bad[bad.len() - 1] == label + f.name@);
            }
        }
    }
}

/// Whether a field can take the value that the edits give it, if they give it any: it lies
/// within the buffer and the value has a serialized form.
pub open spec fn can_take(
    len: nat,
    base: int,
    f: FieldDef,
    edits: Seq<(Seq<char>, Json)>,
) -> bool {
    match lookup(edits, f.name@) {
        Some(value) => base + f.offset + f.size <= len && crate::params::value_bytes(f, value)
            is Some,
        None => true,
    }
}

/// Nothing is prepared when a verdict gives a reason: there is a violation if and only if
/// some number is outside its rails, and each one is told as "field: reason".
pub proof fn every_reason_is_a_violation(
    checks: Seq<(FieldDef, Number)>,
    verdicts: Seq<Option<String>>,
)
    requires
        verdicts.len() >= checks.len(),
    ensures
        violations(checks, verdicts).len() == 0 <==> forall|i: int|
            0 <= i < checks.len() ==> #[trigger] verdicts[i] is None,
        forall|i: int|
            0 <= i < checks.len() && #[trigger] verdicts[i] is Some ==> violations(
                checks,
                verdicts,
            ).contains(checks[i].0.name@ + ": "@ + verdicts[i]->0@),
    decreases checks.len(),
{
    if checks.len() > 0 {
        let front = checks.drop_last();
        every_reason_is_a_violation(front, verdicts);
        let before = violations(front, verdicts);
        let all = violations(checks, verdicts);
        assert forall|i: int|
            0 <= i < checks.len() && #[trigger] verdicts[i] is Some implies all.contains(
            checks[i].0.name@ + ": "@ + verdicts[i]->0@,
        ) by {
            let t = checks[i].0.name@ + ": "@ + verdicts[i]->0@;
            if i < front.len() {
                assert(front[i] == checks[i]);
                assert(before.contains(t));
                let j = choose|j: int| 0 <= j < before.len() && before[j] == t;
                assert(all[j] == t);
            } else {
                assert(all[all.len() - 1] == t);
            }
        }
        let last = checks.len() - 1;
        assert(verdicts[last] is None || all.len() > 0);
    }
}

/// Every number that an edit puts into a field with rails is held against them, the
/// elements of an array one by one, and nothing else is.
pub proof fn railed_numbers_are_checked(fields: Seq<FieldDef>, edits: Seq<(Seq<char>, Json)>)
    ensures
        forall|k: int, m: int|
            #![trigger fields[k], lookup(edits, fields[k].name@)->0.numbers()[m]]
            0 <= k < fields.len() && fields[k].constraints is Some && lookup(
                edits,
                fields[k].name@,
            ) is Some && 0 <= m < lookup(edits, fields[k].name@)->0.numbers().len() ==> rail_checks(
                fields,
                edits,
            ).contains((fields[k], lookup(edits, fields[k].name@)->0.numbers()[m])),
        forall|i: int|
            0 <= i < rail_checks(fields, edits).len() ==> {
                let (f, n) = #[trigger] rail_checks(fields, edits)[i];
                &&& fields.contains(f)
                &&& f.constraints is Some
                &&& lookup(edits, f.name@) matches Some(value)
                &&& value.numbers().contains(n)
            },
    decreases fields.len(),
{
    if fields.len() > 0 {
        let front = fields.drop_last();
        railed_numbers_are_checked(front, edits);
        let before = rail_checks(front, edits);
        let all = rail_checks(fields, edits);
        let f = fields.last();
        assert forall|k: int, m: int|
            #![trigger fields[k], lookup(edits, fields[k].name@)->0.numbers()[m]]
            0 <= k < fields.len() && fields[k].constraints is Some && lookup(
                edits,
                fields[k].name@,
            ) is Some && 0 <= m < lookup(
                edits,
                fields[k].name@,
            )->0.numbers().len() implies all.contains(
            (fields[k], lookup(edits, fields[k].name@)->0.numbers()[m]),
        ) by {
            let pair = (fields[k], lookup(edits, fields[k].name@)->0.numbers()[m]);
            if k < front.len() {
                assert(front[k] == fields[k]);
                assert(before.contains((
                    front[k],
                    lookup(edits, front[k].name@)->0.numbers()[m],
                )));
                let i = choose|i: int| 0 <= i < before.len() && before[i] == pair;
                assert(all[i] == pair);
            } else {
                assert(all[before.len() + m] == pair);
            }
        }
        assert forall|i: int| 0 <= i < all.len() implies ({
            let (g, n) = #[trigger] all[i];
            &&& fields.contains(g)
            &&& g.constraints is Some
            &&& lookup(edits, g.name@) matches Some(value)
            &&& value.numbers().contains(n)
        }) by {
            if i < before.len() {
                assert(all[i] == before[i]);
                let g = before[i].0;
                assert(front.contains(g));
                let j = choose|j: int| 0 <= j < front.len() && front[j] == g;
                assert(fields[j] == g);
            } else {
                assert(fields[fields.len() - 1] == f);
                assert(all[i].0 == f);
            }
        }
    }
}

/// Whether struct `i` of component `c` holds tunable parameters: its category says so and
/// it has fields.
pub open spec fn holds_parameters(
    components: Seq<(Seq<char>, ComponentDict)>,
    c: int,
    i: int,
) -> bool {
    &&& 0 <= c < components.len()
    &&& 0 <= i < components[c].1.structs@.len()
    &&& components[c].1.structs@[i].1.category@ == "TUNABLE_PARAM"@
    &&& components[c].1.structs@[i].1.fields@.len() > 0
}

/// The size of struct `i` of component `c`.
pub open spec fn size_at(components: Seq<(Seq<char>, ComponentDict)>, c: int, i: int) -> usize {
    components[c].1.structs@[i].1.size
}

proof fn first_tunable_is_first(
    structs: Seq<(Seq<char>, StructDef)>,
    from: int,
    size: Option<usize>,
)
    requires
        0 <= from,
    ensures
        match first_tunable(structs, from, size) {
            Some(i) => {
                &&& from <= i < structs.len()
                &&& is_tunable(structs[i].1)
                &&& size matches Some(n) ==> structs[i].1.size == n
                &&& forall|j: int|
                    from <= j < i && is_tunable((#[trigger] structs[j]).1) ==> size is Some
                        && structs[j].1.size != size->0
            },
            None => forall|j: int|
                from <= j < structs.len() && is_tunable((#[trigger] structs[j]).1) ==> size is Some
                    && structs[j].1.size != size->0,
        },
    decreases structs.len() - from,
{
    if from < structs.len() && !(is_tunable(structs[from].1) && (size matches Some(n)
        ==> structs[from].1.size == n)) {
        first_tunable_is_first(structs, from + 1, size);
    }
}

proof fn by_size_is_first(components: Seq<(Seq<char>, ComponentDict)>, from: int, size: usize)
    requires
        0 <= from,
    ensures
        match tunable_by_size(components, from, size) {
            Some((c, i)) => {
                &&& from <= c
                &&& holds_parameters(components, c, i)
                &&& size_at(components, c, i) == size
                &&& forall|d: int, j: int|
                    from <= d && (d < c || d == c && j < i) && #[trigger] holds_parameters(
                        components,
                        d,
                        j,
                    ) ==> size_at(components, d, j) != size
            },
            None => forall|d: int, j: int|
                from <= d && #[trigger] holds_parameters(components, d, j) ==> size_at(
                    components,
                    d,
                    j,
                ) != size,
        },
    decreases components.len() - from,
{
    if from < components.len() {
        first_tunable_is_first(components[from].1.structs@, 0, Some(size));
        if first_tunable(components[from].1.structs@, 0, Some(size)) is None {
            by_size_is_first(components, from + 1, size);
        }
    }
}

proof fn by_name_matches(
    components: Seq<(Seq<char>, ComponentDict)>,
    from: int,
    name: Seq<char>,
    size: usize,
)
    requires
        0 <= from,
    ensures
        match tunable_by_name(components, from, name, size) {
            Some((c, i)) => {
                &&& from <= c
                &&& holds_parameters(components, c, i)
                &&& names_match(components[c].1.component@, name)
                &&& forall|j: int|
                    #[trigger] holds_parameters(components, c, j) && size_at(components, c, j)
                        == size ==> size_at(components, c, i) == size && i <= j
                &&& forall|d: int, j: int|
                    from <= d < c && #[trigger] holds_parameters(components, d, j) ==> !names_match(
                        components[d].1.component@,
                        name,
                    )
            },
            None => forall|d: int, j: int|
                from <= d && #[trigger] holds_parameters(components, d, j) ==> !names_match(
                    components[d].1.component@,
                    name,
                ),
        },
    decreases components.len() - from,
{
    if from < components.len() {
        let dict = components[from].1;
        first_tunable_is_first(dict.structs@, 0, Some(size));
        first_tunable_is_first(dict.structs@, 0, None);
        if !(best_tunable(dict.structs@, size) is Some && names_match(dict.component@, name)) {
            by_name_matches(components, from + 1, name, size);
        }
    }
}

/// The struct that an update writes holds tunable parameters. By name, it is one of the
/// first component that matches the name and has any, of the payload's size if that
/// component has one of that size; else, and when no name is known, it is the first of
/// the payload's size in any component. None is found only when there is no such struct.
pub proof fn parameters_are_found_by_name_else_by_size(
    components: Seq<(Seq<char>, ComponentDict)>,
    size: usize,
    name: Option<Seq<char>>,
)
    ensures
        match tunable_struct(components, size, name) {
            Some((c, i)) => {
                &&& holds_parameters(components, c, i)
                &&& (name is Some && names_match(components[c].1.component@, name->0)) || size_at(
                    components,
                    c,
                    i,
                ) == size
                &&& forall|j: int|
                    #[trigger] holds_parameters(components, c, j) && size_at(components, c, j)
                        == size ==> size_at(components, c, i) == size && i <= j
                &&& name is Some && (exists|d: int, j: int|
                    #[trigger] holds_parameters(components, d, j) && names_match(
                        components[d].1.component@,
                        name->0,
                    )) ==> names_match(components[c].1.component@, name->0)
            },
            None => forall|d: int, j: int|
                #[trigger] holds_parameters(components, d, j) ==> size_at(components, d, j) != size
                    && (name is Some ==> !names_match(components[d].1.component@, name->0)),
        },
{
    by_size_is_first(components, 0, size);
    match name {
        Some(n) => {
            by_name_matches(components, 0, n, size);
        },
        None => {},
    }
}

proof fn entries_keep_the_rest(
    start: (Seq<u8>, Seq<Seq<char>>),
    hdr_size: int,
    ent: StructDef,
    entries: Seq<TextMap<Json>>,
    i: int,
)
    requires
        0 <= hdr_size,
        0 <= i < start.0.len(),
        forall|j: int|
            0 <= j < ent.fields@.len() ==> (#[trigger] ent.fields@[j]).offset + ent.fields@[j].size
                <= ent.size,
        i < hdr_size || i >= hdr_size + entries.len() * ent.size,
    ensures
        edited_entries(start, hdr_size, ent, entries).0.len() == start.0.len(),
        edited_entries(start, hdr_size, ent, entries).0[i] == start.0[i],
    decreases entries.len(),
{
    if entries.len() > 0 {
        let n = (entries.len() - 1) as nat;
        let front = entries.drop_last();
        assert(entries.len() * ent.size == n * ent.size + ent.size && n * ent.size >= 0)
            by (nonlinear_arith)
            requires
                n == entries.len() - 1,
                n >= 0,
        ;
        entries_keep_the_rest(start, hdr_size, ent, front, i);
        let before = edited_entries(start, hdr_size, ent, front);
        unedited_bytes_are_kept(
            before.0,
            ent.fields@,
            hdr_size + n * ent.size,
            entries.last()@,
            entry_label(n),
            i,
        );
    }
}

/// The fields of entry `e` stand behind the header and the `e` entries before it: an
/// edited field of the entry that can be encoded holds its value there, where the entry's
/// fields lie within its size and no other edited field of it lies over this one.
pub proof fn entries_hold_their_values(
    start: (Seq<u8>, Seq<Seq<char>>),
    hdr_size: int,
    ent: StructDef,
    entries: Seq<TextMap<Json>>,
    e: int,
    k: int,
    value: Json,
)
    requires
        0 <= hdr_size,
        0 <= e < entries.len(),
        0 <= k < ent.fields@.len(),
        hdr_size + entries.len() * ent.size <= start.0.len(),
        lookup(entries[e]@, ent.fields@[k].name@) == Some(value),
        crate::params::value_bytes(ent.fields@[k], value) is Some,
        forall|j: int|
            0 <= j < ent.fields@.len() ==> (#[trigger] ent.fields@[j]).offset + ent.fields@[j].size
                <= ent.size,
        forall|j: int|
            0 <= j < ent.fields@.len() && j != k && lookup(
                entries[e]@,
                (#[trigger] ent.fields@[j]).name@,
            ) is Some ==> ent.fields@[j].offset + ent.fields@[j].size <= ent.fields@[k].offset
                || ent.fields@[k].offset + ent.fields@[k].size <= ent.fields@[j].offset,
    ensures
        ({
            let after = edited_entries(start, hdr_size, ent, entries).0;
            let at = hdr_size + e * ent.size + ent.fields@[k].offset;
            &&& after.len() == start.0.len()
            &&& crate::params::value_bytes(ent.fields@[k], value) == Some(
                after.subrange(at, at + ent.fields@[k].size),
            )
        }),
    decreases entries.len(),
{
    let n = (entries.len() - 1) as nat;
    let front = entries.drop_last();
    let before = edited_entries(start, hdr_size, ent, front);
    let after = edited_entries(start, hdr_size, ent, entries).0;
    let f = ent.fields@[k];
    let at = hdr_size + e * ent.size + f.offset;
    assert(entries.len() * ent.size == n * ent.size + ent.size && n * ent.size >= 0 && 0 <= e
        * ent.size && (e < n ==> e * ent.size + ent.size <= n * ent.size)) by (nonlinear_arith)
        requires
            n == entries.len() - 1,
            0 <= e <= n,
    ;
    entries_keep_the_length(start, hdr_size, ent, front);
    edits_keep_the_length(
        before.0,
        ent.fields@,
        hdr_size + n * ent.size,
        entries.last()@,
        entry_label(n),
    );
    if e == n {
        edited_fields_hold_their_values(
            before.0,
            ent.fields@,
            hdr_size + n * ent.size,
            entries.last()@,
            entry_label(n),
            k,
            value,
        );
    } else {
        assert(front[e] == entries[e]);
        entries_hold_their_values(start, hdr_size, ent, front, e, k, value);
        assert forall|i: int| at <= i < at + f.size implies after[i] == before.0[i] by {
            unedited_bytes_are_kept(
                before.0,
                ent.fields@,
                hdr_size + n * ent.size,
                entries.last()@,
                entry_label(n),
                i,
            );
        }
        assert(after.subrange(at, at + f.size) =~= before.0.subrange(at, at + f.size));
    }
}

proof fn entries_keep_the_length(
    start: (Seq<u8>, Seq<Seq<char>>),
    hdr_size: int,
    ent: StructDef,
    entries: Seq<TextMap<Json>>,
)
    requires
        0 <= hdr_size,
    ensures
        edited_entries(start, hdr_size, ent, entries).0.len() == start.0.len(),
    decreases entries.len(),
{
    if entries.len() > 0 {
        let n = (entries.len() - 1) as nat;
        let front = entries.drop_last();
        entries_keep_the_length(start, hdr_size, ent, front);
        assert(n * ent.size >= 0) by (nonlinear_arith);
        edits_keep_the_length(
            edited_entries(start, hdr_size, ent, front).0,
            ent.fields@,
            hdr_size + n * ent.size,
            entries.last()@,
            entry_label(n),
        );
    }
}

/// A payload of a header and entries has room for the header and for every entry, nothing
/// more, and the entries leave the header as it was written.
pub proof fn entries_follow_the_header(hdr: StructDef, ent: StructDef, edits: ParamEdits, i: int)
    requires
        0 <= i < hdr.size,
        forall|j: int|
            0 <= j < ent.fields@.len() ==> (#[trigger] ent.fields@[j]).offset + ent.fields@[j].size
                <= ent.size,
    ensures
        variable_body(hdr, ent, edits).0.len() == hdr.size + entries_of(edits).len() * ent.size,
        variable_body(hdr, ent, edits).0[i] == edited(
            zeros(variable_size(hdr, ent, edits)),
            hdr.fields@,
            0,
            edits.fields@,
            Seq::empty(),
        ).0[i],
{
    let blank = zeros(variable_size(hdr, ent, edits));
    assert(entries_of(edits).len() * ent.size >= 0) by (nonlinear_arith);
    edits_keep_the_length(blank, hdr.fields@, 0, edits.fields@, Seq::empty());
    let start = edited(blank, hdr.fields@, 0, edits.fields@, Seq::empty());
    entries_keep_the_rest(start, hdr.size as int, ent, entries_of(edits), i);
}

/// What is not edited is kept or zero: an update of a payload of the struct's size leaves
/// every other byte as it was read; one of any other size starts from zeros.
pub proof fn flat_updates_start_from_the_payload(
    s: StructDef,
    original: Seq<u8>,
    edits: ParamEdits,
    i: int,
)
    requires
        0 <= i < s.size,
        forall|k: int|
            0 <= k < s.fields@.len() && lookup(
                edits.fields@,
                (#[trigger] s.fields@[k]).name@,
            ) is Some ==> !(s.fields@[k].offset <= i < s.fields@[k].offset + s.fields@[k].size),
    ensures
        flat_body(s, original, edits).0.len() == s.size,
        original.len() == s.size ==> flat_body(s, original, edits).0[i] == original[i],
        original.len() != s.size ==> flat_body(s, original, edits).0[i] == 0,
{
    let start = if original.len() == s.size {
        original
    } else {
        zeros(s.size as nat)
    };
    unedited_bytes_are_kept(start, s.fields@, 0, edits.fields@, Seq::empty(), i);
}

proof fn sized_tunables_are_those(structs: Seq<(Seq<char>, StructDef)>, s: StructDef)
    ensures
        sized_tunables(structs).contains(s) <==> exists|i: int|
            0 <= i < structs.len() && (#[trigger] structs[i]).1 == s && is_tunable(s) && s.size > 0,
    decreases structs.len(),
{
    if structs.len() > 0 {
        let front = structs.drop_last();
        sized_tunables_are_those(front, s);
        let before = sized_tunables(front);
        let all = sized_tunables(structs);
        if all.contains(s) {
            let k = choose|k: int| 0 <= k < all.len() && all[k] == s;
            if k < before.len() {
                assert(before[k] == s);
                let i = choose|i: int|
                    0 <= i < front.len() && (#[trigger] front[i]).1 == s && is_tunable(s) && s.size
                        > 0;
                assert(structs[i] == front[i]);
            } else {
                assert(structs[structs.len() - 1].1 == s);
            }
        }
        if exists|i: int|
            0 <= i < structs.len() && (#[trigger] structs[i]).1 == s && is_tunable(s) && s.size
                > 0 {
            let i = choose|i: int|
                0 <= i < structs.len() && (#[trigger] structs[i]).1 == s && is_tunable(s) && s.size
                    > 0;
            if i < front.len() {
                assert(front[i].1 == s);
                let k = choose|k: int| 0 <= k < before.len() && before[k] == s;
                assert(all[k] == s);
            } else {
                assert(all[all.len() - 1] == s);
            }
        }
    }
}

/// The structs among which a header and an entry are chosen are exactly the tunable ones
/// with a size, of the components that match the name if one is known.
pub proof fn pairs_are_chosen_among_tunables(
    components: Seq<(Seq<char>, ComponentDict)>,
    name: Option<Seq<char>>,
    s: StructDef,
)
    ensures
        all_tunables(components, name).contains(s) <==> exists|c: int, i: int|
            #[trigger] holds_parameters(components, c, i) && components[c].1.structs@[i].1 == s
                && s.size > 0 && (name is Some ==> names_match(
                components[c].1.component@,
                name->0,
            )),
    decreases components.len(),
{
    if components.len() > 0 {
        let front = components.drop_last();
        pairs_are_chosen_among_tunables(front, name, s);
        let dict = components.last().1;
        let before = all_tunables(front, name);
        let more = sized_tunables(dict.structs@);
        let all = all_tunables(components, name);
        sized_tunables_are_those(dict.structs@, s);
        if all.contains(s) {
            let k = choose|k: int| 0 <= k < all.len() && all[k] == s;
            if k < before.len() {
                assert(before[k] == s);
                let (c, i) = choose|c: int, i: int|
                    #[trigger] holds_parameters(front, c, i) && front[c].1.structs@[i].1 == s
                        && s.size > 0 && (name is Some ==> names_match(
                        front[c].1.component@,
                        name->0,
                    ));
                assert(components[c] == front[c]);
                assert(holds_parameters(components, c, i));
            } else {
                assert(more[k - before.len()] == s);
                let i = choose|i: int|
                    0 <= i < dict.structs@.len() && (#[trigger] dict.structs@[i]).1 == s
                        && is_tunable(s) && s.size > 0;
                assert(holds_parameters(components, components.len() - 1, i));
            }
        }
        if exists|c: int, i: int|
            #[trigger] holds_parameters(components, c, i) && components[c].1.structs@[i].1 == s
                && s.size > 0 && (name is Some ==> names_match(
                components[c].1.component@,
                name->0,
            )) {
            let (c, i) = choose|c: int, i: int|
                #[trigger] holds_parameters(components, c, i) && components[c].1.structs@[i].1 == s
                    && s.size > 0 && (name is Some ==> names_match(
                    components[c].1.component@,
                    name->0,
                ));
            if c < front.len() {
                assert(components[c] == front[c]);
                assert(holds_parameters(front, c, i));
                let k = choose|k: int| 0 <= k < before.len() && before[k] == s;
                assert(all[k] == s);
            } else {
                assert(dict.structs@[i].1 == s);
                assert(more.contains(s));
                let k = choose|k: int| 0 <= k < more.len() && more[k] == s;
                assert(all[before.len() + k] == s);
            }
        }
    }
}

/// The header of a header/entries payload is the smallest of the structs to choose from,
/// and the entry the smallest of the others: no struct but the header is smaller than the
/// entry, and none is smaller than the header.
pub proof fn headers_are_the_smallest(
    list: Seq<StructDef>,
    hdr: StructDef,
    ent: StructDef,
    k: int,
)
    requires
        is_header_pair(list, hdr, ent),
        0 <= k < list.len(),
    ensures
        list.contains(hdr),
        list.contains(ent),
        hdr.size <= ent.size,
        hdr.size <= list[k].size,
        list[k].size < ent.size ==> list[k] == hdr,
{
    let (h, e) = choose|h: int, e: int|
        #![trigger is_smallest(list, h, -1), is_smallest(list, e, h)]
        is_smallest(list, h, -1) && is_smallest(list, e, h) && hdr == list[h] && ent == list[e];
    assert(list[e].size >= list[h].size);
    assert(list[k].size >= list[h].size);
}

/// Every number that an update puts into a field with rails is held against them, in the
/// struct, in the header and in every entry.
pub proof fn every_edit_is_checked(plan: UpdatePlan, edits: ParamEdits, e: int, k: int, m: int)
    ensures
        plan matches UpdatePlan::Flat(s) ==> is_railed(s.fields@, k, edits.fields@, m)
            ==> plan_checks(plan, edits).contains(
            (s.fields@[k], lookup(edits.fields@, s.fields@[k].name@)->0.numbers()[m]),
        ),
        plan matches UpdatePlan::Variable(hdr, _) ==> is_railed(hdr.fields@, k, edits.fields@, m)
            ==> plan_checks(plan, edits).contains(
            (hdr.fields@[k], lookup(edits.fields@, hdr.fields@[k].name@)->0.numbers()[m]),
        ),
        plan matches UpdatePlan::Variable(_, ent) ==> (edits.entries matches Some(list) && 0 <= e
            < list@.len() && is_railed(ent.fields@, k, list@[e]@, m)) ==> plan_checks(
            plan,
            edits,
        ).contains(
            (
                ent.fields@[k],
                lookup(entries_of(edits)[e]@, ent.fields@[k].name@)->0.numbers()[m],
            ),
        ),
{
    match plan {
        UpdatePlan::Flat(s) => {
            railed_numbers_are_checked(s.fields@, edits.fields@);
            if is_railed(s.fields@, k, edits.fields@, m) {
                let f = s.fields@[k];
                let n = lookup(edits.fields@, f.name@)->0.numbers()[m];
                assert(rail_checks(s.fields@, edits.fields@).contains((s.fields@[k], n)));
            }
        },
        UpdatePlan::Variable(hdr, ent) => {
            let a = rail_checks(hdr.fields@, edits.fields@);
            let b = entry_checks(ent.fields@, entries_of(edits));
            let all = plan_checks(plan, edits);
            assert(all == a + b);
            railed_numbers_are_checked(hdr.fields@, edits.fields@);
            if is_railed(hdr.fields@, k, edits.fields@, m) {
                let f = hdr.fields@[k];
                let pair = (f, lookup(edits.fields@, f.name@)->0.numbers()[m]);
                assert(a.contains((hdr.fields@[k], pair.1)));
                let i = choose|i: int| 0 <= i < a.len() && a[i] == pair;
                assert(all[i] == pair);
            }
            let list = entries_of(edits);
            if 0 <= e < list.len() && is_railed(ent.fields@, k, list[e]@, m) {
                entries_are_checked(ent.fields@, list, e, k, m);
                let f = ent.fields@[k];
                let pair = (f, lookup(list[e]@, f.name@)->0.numbers()[m]);
                let i = choose|i: int| 0 <= i < b.len() && b[i] == pair;
                assert(all[a.len() + i] == pair);
            }
        },
    }
}

/// Whether number `m` of the edit of field `k` goes into a field with rails.
pub open spec fn is_railed(
    fields: Seq<FieldDef>,
    k: int,
    edits: Seq<(Seq<char>, Json)>,
    m: int,
) -> bool {
    &&& 0 <= k < fields.len()
    &&& fields[k].constraints is Some
    &&& lookup(edits, fields[k].name@) is Some
    &&& 0 <= m < lookup(edits, fields[k].name@)->0.numbers().len()
}

proof fn entries_are_checked(
    fields: Seq<FieldDef>,
    entries: Seq<TextMap<Json>>,
    e: int,
    k: int,
    m: int,
)
    requires
        0 <= e < entries.len(),
        is_railed(fields, k, entries[e]@, m),
    ensures
        entry_checks(fields, entries).contains(
            (fields[k], lookup(entries[e]@, fields[k].name@)->0.numbers()[m]),
        ),
    decreases entries.len(),
{
    let front = entries.drop_last();
    let a = entry_checks(fields, front);
    let b = rail_checks(fields, entries.last()@);
    let all = entry_checks(fields, entries);
    let pair = (fields[k], lookup(entries[e]@, fields[k].name@)->0.numbers()[m]);
    assert(all == a + b);
    if e < front.len() {
        assert(front[e] == entries[e]);
        entries_are_checked(fields, front, e, k, m);
        let i = choose|i: int| 0 <= i < a.len() && a[i] == pair;
        assert(all[i] == pair);
    } else {
        railed_numbers_are_checked(fields, entries.last()@);
        assert(entries.last() == entries[e]);
        assert(b.contains((
            fields[k],
            lookup(entries.last()@, fields[k].name@)->0.numbers()[m],
        )));
        let i = choose|i: int| 0 <= i < b.len() && b[i] == pair;
        assert(all[a.len() + i] == pair);
    }
}

/// The layout hash of a header and its entries is over the leaves of the header at offset
/// zero and, one entry after the other, the leaves of each entry at its own offset, with
/// the size of the whole behind them: each entry adds its leaves, and nothing else.
pub proof fn variable_hashes_are_over_all_leaves(
    hdr: StructDef,
    ent: StructDef,
    n: nat,
    head: Seq<crate::tprm::LeafSpec>,
    next: Seq<crate::tprm::LeafSpec>,
    edits: ParamEdits,
)
    requires
        head.len() == hdr.fields@.len(),
        forall|i: int|
            0 <= i < head.len() ==> crate::params::is_leaf_of(
                #[trigger] head[i],
                hdr.fields@[i],
                0,
            ),
        next.len() == ent.fields@.len(),
        forall|i: int|
            0 <= i < next.len() ==> crate::params::is_leaf_of(
                #[trigger] next[i],
                ent.fields@[i],
                hdr.size as nat + n * ent.size as nat,
            ),
    ensures
        entries_text(ent, hdr.size as nat, 0).len() == 0,
        entries_text(ent, hdr.size as nat, n + 1) == entries_text(ent, hdr.size as nat, n)
            + crate::tprm::leaves_text(next),
        variable_layout_hash(hdr, ent, edits) == crate::tprm::crc32_of(
            vstd::utf8::encode_utf8(
                crate::tprm::leaves_text(head) + entries_text(
                    ent,
                    hdr.size as nat,
                    entries_of(edits).len(),
                ) + "|size:"@ + dec((hdr.size + entries_of(edits).len() * ent.size) as nat),
            ),
        ),
{
    crate::params::computed_hash_is_over_the_leaves(hdr.fields@, head, 0);
    crate::params::computed_hash_is_over_the_leaves(
        ent.fields@,
        next,
        hdr.size as nat + n * ent.size as nat,
    );
}

/// A label tells the entry: no two entries share one.
pub proof fn labels_tell_the_entry(i: nat, j: nat)
    requires
        entry_label(i) == entry_label(j),
    ensures
        i == j,
{
    let (head, tail) = ("entry["@, "]."@);
    let (s, t) = (entry_label(i), entry_label(j));
    let n = head.len() as int;
    assert(s.len() == head.len() + dec(i).len() + tail.len());
    assert(t.len() == head.len() + dec(j).len() + tail.len());
    assert(s.subrange(n, n + dec(i).len()) =~= dec(i));
    assert(t.subrange(n, n + dec(j).len()) =~= dec(j));
    crate::text::decimals_differ(i, j);
}

/// A refused update names everything that is wrong with it: the list of what cannot be
/// encoded, or of what is outside its rails, stands whole in the text of the error.
pub proof fn refusals_name_what_is_wrong(e: UpdateError)
    ensures
        match e {
            UpdateError::Unencodable(list) => crate::text::occurs_in(
                e.text(),
                joined(texts(list@), ", "@),
            ),
            UpdateError::UnencodableEntries(list) => crate::text::occurs_in(
                e.text(),
                joined(texts(list@), ", "@),
            ),
            UpdateError::Constraints(list) => crate::text::occurs_in(
                e.text(),
                joined(texts(list@), "; "@),
            ),
            UpdateError::NoStruct(n) => crate::text::occurs_in(e.text(), dec(n as nat)),
            UpdateError::Stamp(reason) => crate::text::occurs_in(e.text(), reason.text()),
            _ => true,
        },
{
    match e {
        UpdateError::Unencodable(list) => stands_between(
            "Cannot encode edited field(s): "@,
            joined(texts(list@), ", "@),
            " -- unsupported type/size or wrong value type"@,
        ),
        UpdateError::UnencodableEntries(list) => stands_between(
            "Cannot encode edited field(s): "@,
            joined(texts(list@), ", "@),
            Seq::empty(),
        ),
        UpdateError::Constraints(list) => stands_between(
            "Constraint violation(s): "@,
            joined(texts(list@), "; "@),
            Seq::empty(),
        ),
        UpdateError::NoStruct(n) => stands_between(
            "No matching TUNABLE_PARAM struct found for "@,
            dec(n as nat),
            " bytes"@,
        ),
        UpdateError::Stamp(reason) => stands_between(
            "TPRM stamp failed: "@,
            reason.text(),
            Seq::empty(),
        ),
        _ => {},
    }
}

proof fn stands_between(a: Seq<char>, b: Seq<char>, c: Seq<char>)
    ensures
        crate::text::occurs_in(a + b + c, b),
        crate::text::occurs_in(a + b, b),
{
    let n = a.len() as int;
    assert((a + b + c).subrange(n, n + b.len()) =~= b);
    assert((a + b).subrange(n, n + b.len()) =~= b);
    assert(crate::text::occurs_at(a + b + c, b, n));
    assert(crate::text::occurs_at(a + b, b, n));
}

} // verus!
