//! The ARB bundle emitter: entries are sorted by key, each value is rendered
//! back to text (placeholders as `{pN}`), and, for non-base locales, a
//! `@key` metadata object with the description and the placeholder types is
//! added when it would not be empty. The resulting object is pretty-printed
//! with one trailing newline, and a file is rewritten only when its content
//! would change.

use vstd::prelude::*;
use vstd::string::*;

use crate::json::{
    json_map_insert, json_map_is_empty, json_map_model, json_map_new, json_map_to_pretty,
    json_object, json_pretty, json_string, json_value_model, JsonModel,
};
use crate::strutil::{dec_digits, lex_le, push_char, str_eq, str_lex_le};
use crate::value::{
    spec_render_value, spec_specifier_list, spec_type_name, FormatSpecifierType, SpecifierModel,
    ValuePartModel,
};
use crate::xml::{entries_model, EntryModel, ParsedStringsXml, StringValue};

verus! {

/// The position of the first entry under `k`, or a negative value when no
/// entry has that key.
pub open spec fn spec_key_index(m: Seq<(Seq<char>, JsonModel)>, k: Seq<char>) -> int
    decreases m.len(),
{
    if m.len() == 0 {
        -1
    } else if m[0].0 == k {
        0
    } else {
        let r = spec_key_index(m.skip(1), k);
        if r < 0 {
            -1
        } else {
            r + 1
        }
    }
}

/// Insertion into an insertion-ordered map: a new key is appended, an
/// existing key keeps its place and takes the new value.
pub open spec fn spec_json_insert(
    m: Seq<(Seq<char>, JsonModel)>,
    k: Seq<char>,
    v: JsonModel,
) -> Seq<(Seq<char>, JsonModel)> {
    let i = spec_key_index(m, k);
    if i < 0 {
        m.push((k, v))
    } else {
        m.update(i, (k, v))
    }
}

/// No two entries share a key.
pub open spec fn distinct_keys(m: Seq<(Seq<char>, JsonModel)>) -> bool {
    forall|i: int, j: int| 0 <= i < j < m.len() ==> m[i].0 != m[j].0
}

proof fn lemma_key_index(m: Seq<(Seq<char>, JsonModel)>, k: Seq<char>)
    ensures
        spec_key_index(m, k) < 0 ==> forall|i: int| 0 <= i < m.len() ==> m[i].0 != k,
        spec_key_index(m, k) >= 0 ==> 0 <= spec_key_index(m, k) < m.len() && m[spec_key_index(
            m,
            k,
        )].0 == k,
    decreases m.len(),
{
    if m.len() == 0 {
    } else if m[0].0 == k {
    } else {
        lemma_key_index(m.skip(1), k);
        if spec_key_index(m, k) < 0 {
            assert forall|i: int| 0 <= i < m.len() implies m[i].0 != k by {
                if i > 0 {
                    assert(m.skip(1)[i - 1] == m[i]);
                }
            }
        } else {
            assert(m[spec_key_index(m, k)] == m.skip(1)[spec_key_index(m.skip(1), k)]);
        }
    }
}

/// Connects the trusted map-insert contract with `spec_json_insert`, under
/// the key-uniqueness invariant that insertion itself maintains.
proof fn lemma_insert_model(
    prev: Seq<(Seq<char>, JsonModel)>,
    new: Seq<(Seq<char>, JsonModel)>,
    k: Seq<char>,
    v: JsonModel,
)
    requires
        distinct_keys(prev),
        (forall|i: int| 0 <= i < prev.len() ==> prev[i].0 != k) ==> new == prev.push((k, v)),
        (exists|i: int| 0 <= i < prev.len() && prev[i].0 == k) ==> (exists|i: int|
            0 <= i < prev.len() && prev[i].0 == k && new == prev.update(i, (k, v))),
    ensures
        new == spec_json_insert(prev, k, v),
        distinct_keys(new),
{
    lemma_key_index(prev, k);
    let idx = spec_key_index(prev, k);
    if idx < 0 {
        assert(new == prev.push((k, v)));
        assert forall|i: int, j: int| 0 <= i < j < new.len() implies new[i].0 != new[j].0 by {
            if j < prev.len() {
                assert(new[i] == prev[i] && new[j] == prev[j]);
            } else {
                assert(new[j].0 == k && new[i] == prev[i]);
            }
        }
    } else {
        assert(exists|i: int| 0 <= i < prev.len() && prev[i].0 == k);
        let w = choose|i: int| 0 <= i < prev.len() && prev[i].0 == k && new == prev.update(
            i,
            (k, v),
        );
        assert(w == idx);
        assert(new == prev.update(idx, (k, v)));
        assert forall|i: int, j: int| 0 <= i < j < new.len() implies new[i].0 != new[j].0 by {
            assert(new[i].0 == prev[i].0 && new[j].0 == prev[j].0);
        }
    }
}

/// The `{"type": "<name>"}` object of one placeholder.
pub open spec fn spec_type_entry(t: FormatSpecifierType) -> JsonModel {
    JsonModel::Obj(seq![("type"@, JsonModel::Str(spec_type_name(t)))])
}

/// The `placeholders` object of a value: one `pN` entry per placeholder, in
/// order of appearance.
pub open spec fn spec_placeholder_entries(specs: Seq<SpecifierModel>) -> Seq<
    (Seq<char>, JsonModel),
>
    decreases specs.len(),
{
    if specs.len() == 0 {
        Seq::empty()
    } else {
        spec_json_insert(
            spec_placeholder_entries(specs.drop_last()),
            seq!['p'] + dec_digits(specs.last().arg_number),
            spec_type_entry(specs.last().specifier_type),
        )
    }
}

/// The metadata object of one entry: the description when present, and the
/// placeholders object when the value has any placeholder.
pub open spec fn spec_meta_entries(
    description: Option<Seq<char>>,
    parts: Seq<ValuePartModel>,
) -> Seq<(Seq<char>, JsonModel)> {
    (match description {
        Some(d) => seq![("description"@, JsonModel::Str(d))],
        None => Seq::<(Seq<char>, JsonModel)>::empty(),
    }) + (if spec_specifier_list(parts).len() > 0 {
        seq![
            (
                "placeholders"@,
                JsonModel::Obj(spec_placeholder_entries(spec_specifier_list(parts))),
            ),
        ]
    } else {
        Seq::<(Seq<char>, JsonModel)>::empty()
    })
}

/// Adds one entry to the ARB object: its rendered value under its key, and,
/// with metadata on and non-empty, the metadata object under `@key`.
pub open spec fn spec_entry_insert(
    m: Seq<(Seq<char>, JsonModel)>,
    e: EntryModel,
    with_meta: bool,
) -> Seq<(Seq<char>, JsonModel)> {
    let m1 = spec_json_insert(m, e.key, JsonModel::Str(spec_render_value(e.parts)));
    let meta = spec_meta_entries(e.description, e.parts);
    if with_meta && meta.len() > 0 {
        spec_json_insert(m1, seq!['@'] + e.key, JsonModel::Obj(meta))
    } else {
        m1
    }
}

/// The ARB object of an entry list, entries added left to right.
pub open spec fn spec_arb_entries(entries: Seq<EntryModel>, with_meta: bool) -> Seq<
    (Seq<char>, JsonModel),
>
    decreases entries.len(),
{
    if entries.len() == 0 {
        Seq::empty()
    } else {
        spec_entry_insert(
            spec_arb_entries(entries.drop_last(), with_meta),
            entries.last(),
            with_meta,
        )
    }
}

/// Stable insertion of an entry into a key-sorted entry list: it goes after
/// every entry whose key is less than or equal to its own.
pub open spec fn spec_insert_sorted(e: EntryModel, s: Seq<EntryModel>) -> Seq<EntryModel>
    decreases s.len(),
{
    if s.len() == 0 {
        seq![e]
    } else if lex_le(s[0].key, e.key) {
        seq![s[0]] + spec_insert_sorted(e, s.skip(1))
    } else {
        seq![e] + s
    }
}

/// The stable sort of an entry list by key.
pub open spec fn spec_sort_entries(s: Seq<EntryModel>) -> Seq<EntryModel>
    decreases s.len(),
{
    if s.len() == 0 {
        Seq::empty()
    } else {
        spec_insert_sorted(s.last(), spec_sort_entries(s.drop_last()))
    }
}

proof fn lemma_insert_sorted_at(s: Seq<EntryModel>, e: EntryModel, j: int)
    requires
        0 <= j <= s.len(),
        forall|t: int| 0 <= t < j ==> lex_le(s[t].key, e.key),
        j < s.len() ==> !lex_le(s[j].key, e.key),
    ensures
        spec_insert_sorted(e, s) == s.insert(j, e),
    decreases j,
{
    if j == 0 {
        if s.len() == 0 {
            assert(spec_insert_sorted(e, s) =~= s.insert(0, e));
        } else {
            assert(seq![e] + s =~= s.insert(0, e));
        }
    } else {
        assert(lex_le(s[0].key, e.key));
        assert(forall|t: int| 0 <= t < j - 1 ==> s.skip(1)[t] == s[t + 1]);
        if j - 1 < s.skip(1).len() {
            assert(s.skip(1)[j - 1] == s[j]);
        }
        lemma_insert_sorted_at(s.skip(1), e, j - 1);
        assert(seq![s[0]] + s.skip(1).insert(j - 1, e) =~= s.insert(j, e));
    }
}

/// The position before which `key` is inserted: after every entry whose key
/// is less than or equal to it.
fn find_insert_pos(out: &Vec<StringValue>, key: &String) -> (j: usize)
    ensures
        j <= out@.len(),
        forall|t: int| 0 <= t < j ==> lex_le(entries_model(out@)[t].key, key@),
        j < out@.len() ==> !lex_le(entries_model(out@)[j as int].key, key@),
{
    let n = out.len();
    let mut j: usize = 0;
    while j < n
        invariant
            j <= n,
            n == out@.len(),
            entries_model(out@).len() == n,
            forall|t: int| 0 <= t < j ==> lex_le(entries_model(out@)[t].key, key@),
        decreases n - j,
    {
        if !str_lex_le(out[j].key.as_str(), key.as_str()) {
            proof {
                assert(entries_model(out@)[j as int] == out@[j as int]@);
            }
            return j;
        }
        proof {
            assert(entries_model(out@)[j as int] == out@[j as int]@);
        }
        j += 1;
    }
    j
}

fn insert_entry_sorted(out: &mut Vec<StringValue>, e: StringValue)
    ensures
        entries_model(final(out)@) == spec_insert_sorted(e@, entries_model(old(out)@)),
{
    let j = find_insert_pos(out, &e.key);
    let ghost before = entries_model(out@);
    let ghost em = e@;
    proof {
        lemma_insert_sorted_at(before, em, j as int);
    }
    out.insert(j, e);
    proof {
        assert(entries_model(out@) =~= before.insert(j as int, em));
    }
}

/// Sorts entries by key, stably.
pub fn sort_entries(entries: Vec<StringValue>) -> (r: Vec<StringValue>)
    ensures
        entries_model(r@) == spec_sort_entries(entries_model(entries@)),
{
    let ghost full = entries_model(entries@);
    let mut v = entries;
    let mut out: Vec<StringValue> = Vec::new();
    proof {
        assert(entries_model(v@) =~= full.skip(0));
        assert(full.take(0) =~= Seq::<EntryModel>::empty());
        assert(entries_model(out@) =~= spec_sort_entries(full.take(0)));
    }
    while v.len() > 0
        invariant
            v@.len() <= full.len(),
            entries_model(v@) == full.skip(full.len() - v@.len()),
            entries_model(out@) == spec_sort_entries(full.take(full.len() - v@.len())),
        decreases v@.len(),
    {
        let ghost k = full.len() - v@.len();
        proof {
            assert(entries_model(v@)[0] == v@[0]@);
            assert(full.skip(k)[0] == full[k]);
        }
        let ghost vold = v@;
        let e = v.remove(0);
        proof {
            assert(v@ =~= vold.skip(1));
            assert(entries_model(v@) =~= full.skip(k + 1)) by {
                assert forall|t: int| 0 <= t < v@.len() implies entries_model(v@)[t] == full.skip(
                    k + 1,
                )[t] by {
                    assert(v@[t] == vold[t + 1]);
                    assert(entries_model(vold)[t + 1] == vold[t + 1]@);
                    assert(full.skip(k)[t + 1] == full[k + 1 + t]);
                    assert(full.skip(k + 1)[t] == full[k + 1 + t]);
                }
            };
            assert(e@ == full[k]);
        }
        insert_entry_sorted(&mut out, e);
        proof {
            assert(full.take(k + 1).drop_last() =~= full.take(k));
            assert(full.take(k + 1).last() == full[k]);
        }
    }
    proof {
        assert(full.take(full.len() as int) =~= full);
    }
    out
}

/// The ARB file content of an entry list: the sorted object, pretty-printed,
/// with one trailing newline.
pub fn to_arb_string(parsed: Vec<StringValue>, with_metadata: bool) -> (r: String)
    ensures
        r@ == json_pretty(
            spec_arb_entries(spec_sort_entries(entries_model(parsed@)), with_metadata),
        ).push('\n'),
{
    let sorted = sort_entries(parsed);
    let ghost sm = entries_model(sorted@);
    let mut object = json_map_new();
    let mut v = sorted;
    proof {
        assert(entries_model(v@) =~= sm.skip(0));
        assert(sm.take(0) =~= Seq::<EntryModel>::empty());
        assert(json_map_model(object) =~= spec_arb_entries(sm.take(0), with_metadata));
    }
    while v.len() > 0
        invariant
            v@.len() <= sm.len(),
            entries_model(v@) == sm.skip(sm.len() - v@.len()),
            json_map_model(object) == spec_arb_entries(sm.take(sm.len() - v@.len()), with_metadata),
            distinct_keys(json_map_model(object)),
        decreases v@.len(),
    {
        let ghost k = sm.len() - v@.len();
        proof {
            assert(entries_model(v@)[0] == v@[0]@);
            assert(sm.skip(k)[0] == sm[k]);
        }
        let ghost vold = v@;
        let e = v.remove(0);
        proof {
            assert(v@ =~= vold.skip(1));
            assert(entries_model(v@) =~= sm.skip(k + 1)) by {
                assert forall|t: int| 0 <= t < v@.len() implies entries_model(v@)[t] == sm.skip(
                    k + 1,
                )[t] by {
                    assert(v@[t] == vold[t + 1]);
                    assert(entries_model(vold)[t + 1] == vold[t + 1]@);
                    assert(sm.skip(k)[t + 1] == sm[k + 1 + t]);
                    assert(sm.skip(k + 1)[t] == sm[k + 1 + t]);
                }
            };
            assert(e@ == sm[k]);
        }
        let ghost em = e@;
        let StringValue { key, value, description } = e;
        let rendered = value.to_arb_string();
        let ghost m0 = json_map_model(object);
        let jv = json_string(rendered);
        json_map_insert(&mut object, key.clone(), jv);
        proof {
            lemma_insert_model(
                m0,
                json_map_model(object),
                em.key,
                JsonModel::Str(spec_render_value(em.parts)),
            );
        }
        let ghost m1 = json_map_model(object);
        if with_metadata {
            let mut attributes = json_map_new();
            match description {
                Some(d) => {
                    let ghost dm = d@;
                    let ghost am0 = json_map_model(attributes);
                    let dv = json_string(d);
                    json_map_insert(&mut attributes, String::from_str("description"), dv);
                    proof {
                        lemma_insert_model(
                            am0,
                            json_map_model(attributes),
                            "description"@,
                            JsonModel::Str(dm),
                        );
                        assert(json_map_model(attributes) =~= seq![
                            ("description"@, JsonModel::Str(dm)),
                        ]);
                    }
                },
                None => {},
            }
            let ghost desc_part = (match em.description {
                Some(d) => seq![("description"@, JsonModel::Str(d))],
                None => Seq::<(Seq<char>, JsonModel)>::empty(),
            });
            proof {
                assert(json_map_model(attributes) =~= desc_part);
                assert(distinct_keys(json_map_model(attributes)));
            }
            let specs = value.format_specifiers();
            let ghost sl = spec_specifier_list(em.parts);
            proof {
                assert(specs@.map_values(|f: crate::value::FormatSpecifier| f@) == sl);
            }
            if specs.len() > 0 {
                let mut placeholders = json_map_new();
                let nspec = specs.len();
                let mut si: usize = 0;
                proof {
                    assert(sl.take(0) =~= Seq::<SpecifierModel>::empty());
                    assert(json_map_model(placeholders) =~= spec_placeholder_entries(sl.take(0)));
                }
                while si < nspec
                    invariant
                        si <= nspec,
                        nspec == specs@.len(),
                        specs@.map_values(|f: crate::value::FormatSpecifier| f@) == sl,
                        sl.len() == nspec,
                        json_map_model(placeholders) == spec_placeholder_entries(
                            sl.take(si as int),
                        ),
                        distinct_keys(json_map_model(placeholders)),
                    decreases nspec - si,
                {
                    let f = specs[si];
                    proof {
                        assert(f@ == sl[si as int]);
                    }
                    let pname = f.to_arb_placeholder_name();
                    let mut type_object = json_map_new();
                    let ghost tm0 = json_map_model(type_object);
                    let tv = json_string(String::from_str(f.to_arb_placeholder_type()));
                    json_map_insert(&mut type_object, String::from_str("type"), tv);
                    proof {
                        lemma_insert_model(
                            tm0,
                            json_map_model(type_object),
                            "type"@,
                            JsonModel::Str(spec_type_name(f.specifier_type)),
                        );
                        assert(json_map_model(type_object) =~= seq![
                            ("type"@, JsonModel::Str(spec_type_name(f.specifier_type))),
                        ]);
                    }
                    let ghost pm0 = json_map_model(placeholders);
                    let pv = json_object(type_object);
                    proof {
                        assert(json_value_model(pv) == spec_type_entry(sl[si as int].specifier_type))
                            by {
                            assert(json_map_model(type_object) =~= seq![
                                (
                                    "type"@,
                                    JsonModel::Str(spec_type_name(sl[si as int].specifier_type)),
                                ),
                            ]);
                        }
                    }
                    json_map_insert(&mut placeholders, pname, pv);
                    proof {
                        lemma_insert_model(
                            pm0,
                            json_map_model(placeholders),
                            seq!['p'] + dec_digits(sl[si as int].arg_number),
                            spec_type_entry(sl[si as int].specifier_type),
                        );
                        assert(sl.take(si + 1).drop_last() =~= sl.take(si as int));
                        assert(sl.take(si + 1).last() == sl[si as int]);
                    }
                    si += 1;
                }
                proof {
                    assert(sl.take(nspec as int) =~= sl);
                }
                let ghost am1 = json_map_model(attributes);
                let phv = json_object(placeholders);
                json_map_insert(&mut attributes, String::from_str("placeholders"), phv);
                proof {
                    reveal_strlit("description");
                    reveal_strlit("placeholders");
                    assert("description"@.len() != "placeholders"@.len());
                    lemma_insert_model(
                        am1,
                        json_map_model(attributes),
                        "placeholders"@,
                        JsonModel::Obj(spec_placeholder_entries(sl)),
                    );
                    assert(json_map_model(attributes) =~= desc_part + seq![
                        ("placeholders"@, JsonModel::Obj(spec_placeholder_entries(sl))),
                    ]);
                }
            }
            proof {
                assert(sl.len() == specs@.len());
                assert(json_map_model(attributes) =~= spec_meta_entries(em.description, em.parts));
            }
            if !json_map_is_empty(&attributes) {
                let mut at_key = String::new();
                push_char(&mut at_key, '@');
                at_key.append(key.as_str());
                proof {
                    assert(at_key@ =~= seq!['@'] + em.key);
                }
                let av = json_object(attributes);
                json_map_insert(&mut object, at_key, av);
                proof {
                    lemma_insert_model(
                        m1,
                        json_map_model(object),
                        seq!['@'] + em.key,
                        JsonModel::Obj(spec_meta_entries(em.description, em.parts)),
                    );
                }
            }
        }
        proof {
            assert(json_map_model(object) == spec_entry_insert(m0, em, with_metadata));
            assert(sm.take(k + 1).drop_last() =~= sm.take(k));
            assert(sm.take(k + 1).last() == sm[k]);
        }
    }
    proof {
        assert(sm.take(sm.len() as int) =~= sm);
    }
    let mut out = json_map_to_pretty(&object);
    push_char(&mut out, '\n');
    out
}

/// The ARB file content of one locale's bundle; metadata is emitted for
/// every locale but the base locale `en`.
pub fn arb_file_content(parsed: ParsedStringsXml) -> (r: String)
    ensures
        r@ == json_pretty(
            spec_arb_entries(
                spec_sort_entries(entries_model(parsed.strings@)),
                parsed.locale@ != "en"@,
            ),
        ).push('\n'),
{
    let ParsedStringsXml { strings, locale } = parsed;
    let with_metadata = !str_eq(locale.as_str(), "en");
    to_arb_string(strings, with_metadata)
}

/// Whether a file must be (re)written: only when no file with exactly the new
/// content is already there.
pub open spec fn spec_write_needed(existing: Option<Seq<char>>, new_content: Seq<char>) -> bool {
    existing != Some(new_content)
}

/// Decides `spec_write_needed` on an existing file's content.
pub fn write_needed(existing: Option<&String>, new_content: &String) -> (r: bool)
    ensures
        r == spec_write_needed(
            match existing {
                Some(s) => Some(s@),
                None => None,
            },
            new_content@,
        ),
{
    match existing {
        Some(s) => !str_eq(s.as_str(), new_content.as_str()),
        None => true,
    }
}

/// Law: emitting a bundle a second time over its own output is a no-op; a
/// file whose content already equals the new content is never rewritten.
pub proof fn lemma_idempotent_write(content: Seq<char>)
    ensures
        !spec_write_needed(Some(content), content),
{
}

/// Law: for the base locale (metadata off) the emitted object holds only the
/// entries' own keys, each bound to a plain string value — never a `@key`
/// metadata object.
pub proof fn lemma_base_locale_no_metadata(entries: Seq<EntryModel>)
    ensures
        forall|i: int|
            0 <= i < spec_arb_entries(entries, false).len() ==> ((#[trigger] spec_arb_entries(
                entries,
                false,
            )[i]).1 is Str && exists|j: int|
                0 <= j < entries.len() && spec_arb_entries(entries, false)[i].0 == entries[j].key),
    decreases entries.len(),
{
    if entries.len() == 0 {
    } else {
        lemma_base_locale_no_metadata(entries.drop_last());
        let prev = spec_arb_entries(entries.drop_last(), false);
        let e = entries.last();
        let cur = spec_arb_entries(entries, false);
        lemma_key_index(prev, e.key);
        let idx = spec_key_index(prev, e.key);
        assert(cur == spec_json_insert(prev, e.key, JsonModel::Str(spec_render_value(e.parts))));
        assert forall|i: int| 0 <= i < cur.len() implies (cur[i].1 is Str && exists|j: int|
            0 <= j < entries.len() && cur[i].0 == entries[j].key) by {
            if (idx < 0 && i == prev.len()) || (idx >= 0 && i == idx) {
                assert(cur[i].0 == e.key && cur[i].1 is Str);
                assert(cur[i].0 == entries[entries.len() - 1].key);
            } else {
                assert(cur[i] == prev[i]);
                assert(prev[i].1 is Str && exists|j: int|
                    0 <= j < entries.drop_last().len() && prev[i].0 == entries.drop_last()[j].key);
                let j = choose|j: int|
                    0 <= j < entries.drop_last().len() && prev[i].0 == entries.drop_last()[j].key;
                assert(entries.drop_last()[j] == entries[j]);
            }
        }
    }
}

} // verus!
