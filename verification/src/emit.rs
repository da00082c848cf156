//! The per-field policy layer and the definition emitter: final optionality,
//! rename and flatten annotations, the two hard-coded null-safety overrides,
//! and the aggregation of fields, generics and imports into one struct
//! declaration.

use vstd::prelude::*;
use crate::casing::{camel_of, snake_of, to_camel_case, to_snake_case};
use crate::decl::{FieldDef, FieldModel, RustField, RustFieldModel, RustStruct, RustStructModel};
use crate::error::Error;
use crate::rust_type::{
    dynamic_count, libs_set, translate_go_type_to_rust_type, translated_annotations,
    translated_generics, translated_libraries, translated_value, translation_error, GenericModel,
    RustGeneric, RustType,
};
use crate::text::{
    is_hashmap_render, is_hashmap_type, join_lines, join_newline, mangle, replace_all, seq_le,
    spec_mangle, spec_replace, str_eq, str_le,
};

verus! {

/// The views of a row of declared fields.
pub open spec fn field_views(s: Seq<FieldDef>) -> Seq<FieldModel> {
    s.map_values(|f: FieldDef| f@)
}

/// A field's emitted member name: the declared name rewritten to the
/// value-naming convention, with reserved words escaped.
pub open spec fn member_name(f: FieldModel) -> Seq<char> {
    spec_mangle(snake_of(f.name))
}

/// A field's final rendered type. A keyed collection is never wrapped; a
/// plain string scalar always becomes the optional string scalar, whatever
/// the omit flag says; otherwise an omit-if-empty field is wrapped in the
/// optional type.
pub open spec fn derived_value(f: FieldModel, c: nat) -> Seq<char> {
    let v = translated_value(f.go_type, Some(c));
    if is_hashmap_render(v) {
        v
    } else if v == "String"@ {
        "Option<String>"@
    } else if f.omit_empty {
        "Option<"@ + v + ">"@
    } else {
        v
    }
}

/// The two hard-coded null-safety overrides: a keyed collection decodes a
/// null as the empty collection; a plain string scalar decodes an absent
/// value as the default instead of erroring.
pub open spec fn override_annotations(f: FieldModel, c: nat) -> Seq<Seq<char>> {
    let v = translated_value(f.go_type, Some(c));
    if is_hashmap_render(v) {
        seq!["#[serde(deserialize_with = \"deserialize_lambda_map\")]"@, "#[serde(default)]"@]
    } else if v == "String"@ {
        seq!["#[serde(deserialize_with = \"deserialize_lambda_string\")]"@, "#[serde(default)]"@]
    } else {
        Seq::empty()
    }
}

/// An embedded field is flattened into its parent instead of renamed; a
/// named field whose serialized name differs from its member name carries a
/// rename annotation with the original serialized name.
pub open spec fn rename_annotations(f: FieldModel) -> Seq<Seq<char>> {
    if f.embedded {
        seq!["#[serde(flatten)]"@]
    } else {
        match f.json_name {
            Some(j) => if j != member_name(f) {
                seq!["#[serde(rename = \""@ + j + "\")]"@]
            } else {
                Seq::empty()
            },
            None => Seq::empty(),
        }
    }
}

/// A field's emitted annotations: rename or flatten first, then the
/// translator's annotations, then the override annotations.
pub open spec fn derived_annotations(f: FieldModel, c: nat) -> Seq<Seq<char>> {
    rename_annotations(f) + translated_annotations(f.go_type, Some(c)) + override_annotations(f, c)
}

/// A field's doc text: its comment lines joined, or nothing.
pub open spec fn derived_doc(f: FieldModel) -> Option<Seq<char>> {
    if f.comments.len() == 0 {
        None
    } else {
        Some(join_newline(f.comments))
    }
}

/// The whole emitted field for one declared field translated at counter `c`.
pub open spec fn derived_field(f: FieldModel, c: nat) -> RustFieldModel {
    RustFieldModel {
        name: member_name(f),
        value: derived_value(f, c),
        annotations: derived_annotations(f, c),
        doc: derived_doc(f),
    }
}

/// The imports one field requires: the translator's, plus the shared custom
/// decoders when an override fired.
pub open spec fn field_libraries(f: FieldModel, c: nat) -> Set<Seq<char>> {
    let v = translated_value(f.go_type, Some(c));
    if is_hashmap_render(v) || v == "String"@ {
        translated_libraries(f.go_type, Some(c)).insert("custom_serde::*"@)
    } else {
        translated_libraries(f.go_type, Some(c))
    }
}

/// The struct-scoped generic counter before field `j`: the dynamic-any
/// occurrences of all earlier fields. Numbering starts at zero in every
/// struct; no two structs share an index space.
pub open spec fn counter_before(fields: Seq<FieldModel>, j: int) -> nat
    decreases j,
{
    if j <= 0 {
        0
    } else {
        counter_before(fields, j - 1) + dynamic_count(fields[j - 1].go_type)
    }
}

/// The first fatal condition met while translating the fields in order,
/// starting at field `j`.
pub open spec fn fields_error_from(fields: Seq<FieldModel>, j: int) -> Option<Error>
    decreases fields.len() - j,
{
    if j < 0 || j >= fields.len() {
        None
    } else {
        match translation_error(fields[j].go_type, Some(counter_before(fields, j))) {
            Some(e) => Some(e),
            None => fields_error_from(fields, j + 1),
        }
    }
}

/// The emitted fields of a struct, each translated at its own counter.
pub open spec fn struct_fields_model(fields: Seq<FieldModel>) -> Seq<RustFieldModel> {
    Seq::new(fields.len(), |j: int| derived_field(fields[j], counter_before(fields, j)))
}

/// The generic parameters collected from the first `i` fields.
pub open spec fn struct_generics_upto(fields: Seq<FieldModel>, i: int) -> Seq<GenericModel>
    decreases i,
{
    if i <= 0 {
        Seq::empty()
    } else {
        struct_generics_upto(fields, i - 1) + translated_generics(
            fields[i - 1].go_type,
            Some(counter_before(fields, i - 1)),
        )
    }
}

/// The imports collected from the first `i` fields.
pub open spec fn struct_libraries_upto(fields: Seq<FieldModel>, i: int) -> Set<Seq<char>>
    decreases i,
{
    if i <= 0 {
        Set::empty()
    } else {
        struct_libraries_upto(fields, i - 1).union(
            field_libraries(fields[i - 1], counter_before(fields, i - 1)),
        )
    }
}

/// The fixed derive set of every emitted struct.
pub open spec fn struct_derives() -> Seq<Seq<char>> {
    seq!["Debug"@, "Clone"@, "PartialEq"@, "Deserialize"@, "Serialize"@]
}

/// The struct's doc comment: each line with every occurrence of the
/// original struct name rewritten to the emitted name, delimited as a
/// cross-reference; nothing when there are no comment lines.
pub open spec fn struct_doc(name: Seq<char>, comments: Seq<Seq<char>>) -> Option<Seq<char>> {
    if comments.len() == 0 {
        None
    } else {
        Some(
            join_newline(
                comments.map_values(
                    |x: Seq<char>| spec_replace(x, name, seq!['`'] + camel_of(name) + seq!['`']),
                ),
            ),
        )
    }
}

/// The whole emitted struct for a declared struct.
pub open spec fn struct_model(
    name: Seq<char>,
    comments: Seq<Seq<char>>,
    fields: Seq<FieldModel>,
) -> RustStructModel {
    RustStructModel {
        name: camel_of(name),
        doc: struct_doc(name, comments),
        derives: struct_derives(),
        generics: struct_generics_upto(fields, fields.len() as int),
        fields: struct_fields_model(fields),
    }
}

/// Builds one emitted struct from a declared struct: rewrites the names,
/// translates each field against the shared struct-scoped counter, derives
/// optionality, renames and overrides, and aggregates generics and imports.
/// Fails on a nameless struct, and on the first field whose type does not
/// translate.
pub fn build_rust_struct(name: &str, comments: &Vec<String>, fields: &Vec<FieldDef>) -> (r: Result<
    (RustStruct, Vec<String>),
    Error,
>)
    ensures
        name@.len() == 0 ==> (r matches Err(e) && e is Internal),
        name@.len() >= 1 ==> (fields_error_from(field_views(fields@), 0) matches Some(e) ==> (r
            matches Err(e2) && e2 == e)),
        (name@.len() >= 1 && fields_error_from(field_views(fields@), 0) is None) ==> (r matches Ok(
            p,
        ) && (p.0@ == struct_model(
            name@,
            comments@.map_values(|c: String| c@),
            field_views(fields@),
        ) && libs_set(p.1@) == struct_libraries_upto(
            field_views(fields@),
            fields@.len() as int,
        ))),
{
    let n = name.unicode_len();
    if n == 0 {
        return Err(Error::Internal(String::from_str("structs always have a name")));
    }
    let ghost fv = field_views(fields@);
    let camel = to_camel_case(name);
    let mut out_fields: Vec<RustField> = Vec::new();
    let mut generics: Vec<RustGeneric> = Vec::new();
    let mut libraries: Vec<String> = Vec::new();
    let mut counter: usize = 0;
    let mut i: usize = 0;
    let nf = fields.len();
    while i < nf
        invariant
            name@.len() >= 1,
            nf == fields@.len(),
            fv == field_views(fields@),
            fv.len() == nf,
            i <= nf,
            counter as nat == counter_before(fv, i as int),
            fields_error_from(fv, 0) == fields_error_from(fv, i as int),
            out_fields@.len() == i,
            forall|j: int|
                0 <= j < i ==> (#[trigger] out_fields@[j])@ == derived_field(
                    fv[j],
                    counter_before(fv, j),
                ),
            generics@.map_values(|g: RustGeneric| g@) == struct_generics_upto(fv, i as int),
            libs_set(libraries@) == struct_libraries_upto(fv, i as int),
        decreases nf - i,
    {
        let f = &fields[i];
        proof {
            assert(fv[i as int] == f@);
        }
        let snake = to_snake_case(f.name.as_str());
        let memb = mangle(snake.as_str());
        match translate_go_type_to_rust_type(&f.go_type, Some(counter)) {
            Err(e) => {
                return Err(e);
            },
            Ok((rust_data, after)) => {
                counter = after.unwrap();
                let RustType {
                    annotations: mut tr_annots,
                    libraries: tr_libs,
                    value: tr_value,
                    generics: mut tr_generics,
                } = rust_data;
                let v_is_map = is_hashmap_type(tr_value.as_str());
                let v_is_string = str_eq(tr_value.as_str(), "String");
                let mut annotations: Vec<String> = Vec::new();
                if f.embedded {
                    annotations.push(String::from_str("#[serde(flatten)]"));
                } else {
                    match &f.json_name {
                        Some(j) => {
                            if !str_eq(j.as_str(), memb.as_str()) {
                                let mut ren = String::from_str("#[serde(rename = \"");
                                ren.append(j.as_str());
                                ren.append("\")]");
                                annotations.push(ren);
                            }
                        },
                        None => {},
                    }
                }
                proof {
                    assert(annotations@.map_values(|a: String| a@) =~= rename_annotations(
                        fv[i as int],
                    ));
                }
                annotations.append(&mut tr_annots);
                let value: String = if v_is_map {
                    tr_value
                } else if v_is_string {
                    String::from_str("Option<String>")
                } else if f.omit_empty {
                    let mut s = String::from_str("Option<");
                    s.append(tr_value.as_str());
                    s.append(">");
                    s
                } else {
                    tr_value
                };
                if v_is_map {
                    annotations.push(
                        String::from_str("#[serde(deserialize_with = \"deserialize_lambda_map\")]"),
                    );
                    annotations.push(String::from_str("#[serde(default)]"));
                } else if v_is_string {
                    annotations.push(
                        String::from_str(
                            "#[serde(deserialize_with = \"deserialize_lambda_string\")]",
                        ),
                    );
                    annotations.push(String::from_str("#[serde(default)]"));
                }
                let doc: Option<String> = if f.comments.len() == 0 {
                    None
                } else {
                    Some(join_lines(&f.comments))
                };
                let rf = RustField { name: memb, value, annotations, doc };
                proof {
                    let c = counter_before(fv, i as int);
                    assert(rf@.annotations =~= derived_annotations(fv[i as int], c));
                    assert(rf@ =~~= derived_field(fv[i as int], c));
                }
                out_fields.push(rf);
                generics.append(&mut tr_generics);
                crate::rust_type::extend_libs(&mut libraries, &tr_libs);
                if v_is_map || v_is_string {
                    crate::rust_type::insert_lib(&mut libraries, "custom_serde::*");
                }
                proof {
                    assert(generics@.map_values(|g: RustGeneric| g@) =~= struct_generics_upto(
                        fv,
                        i + 1 as int,
                    ));
                    assert(libs_set(libraries@) =~= struct_libraries_upto(fv, i + 1 as int));
                }
                i = i + 1;
            },
        }
    }
    let doc: Option<String> = if comments.len() == 0 {
        None
    } else {
        let mut rep = String::from_str("`");
        rep.append(camel.as_str());
        rep.append("`");
        proof {
            reveal_strlit("`");
            assert(rep@ =~= seq!['`'] + camel_of(name@) + seq!['`']);
        }
        let mut lines: Vec<String> = Vec::new();
        let mut k: usize = 0;
        let nc = comments.len();
        while k < nc
            invariant
                nc == comments@.len(),
                k <= nc,
                name@.len() >= 1,
                rep@ == seq!['`'] + camel_of(name@) + seq!['`'],
                lines@.len() == k,
                forall|j: int|
                    0 <= j < k ==> (#[trigger] lines@[j])@ == spec_replace(
                        comments@[j]@,
                        name@,
                        seq!['`'] + camel_of(name@) + seq!['`'],
                    ),
            decreases nc - k,
        {
            lines.push(replace_all(comments[k].as_str(), name, rep.as_str()));
            k = k + 1;
        }
        proof {
            let cv = comments@.map_values(|c: String| c@);
            assert(lines@.map_values(|s: String| s@) =~= cv.map_values(
                |x: Seq<char>| spec_replace(x, name@, seq!['`'] + camel_of(name@) + seq!['`']),
            ));
        }
        Some(join_lines(&lines))
    };
    let mut derives: Vec<String> = Vec::new();
    derives.push(String::from_str("Debug"));
    derives.push(String::from_str("Clone"));
    derives.push(String::from_str("PartialEq"));
    derives.push(String::from_str("Deserialize"));
    derives.push(String::from_str("Serialize"));
    let rs = RustStruct { name: camel, doc, derives, generics, fields: out_fields };
    proof {
        let cv = comments@.map_values(|c: String| c@);
        assert(rs@.derives =~= struct_derives());
        assert(rs@.fields =~= struct_fields_model(fv));
        assert(rs@ =~~= struct_model(name@, cv, fv));
    }
    Ok((rs, libraries))
}

/// An import row that is sorted lexicographically and duplicate-free.
pub open spec fn sorted_unique(s: Seq<Seq<char>>) -> bool {
    forall|i: int, j: int|
        0 <= i < j < s.len() ==> (seq_le(#[trigger] s[i], #[trigger] s[j]) && s[i] != s[j])
}

/// Two sorted, duplicate-free import rows holding the same set of paths are
/// the same row: the rendered import order does not depend on the order in
/// which the paths were accumulated.
pub proof fn lemma_sorted_unique_same_set(a: Seq<Seq<char>>, b: Seq<Seq<char>>)
    requires
        sorted_unique(a),
        sorted_unique(b),
        a.to_set() == b.to_set(),
    ensures
        a == b,
    decreases a.len(),
{
    if a.len() == 0 {
        if b.len() > 0 {
            assert(b.to_set().contains(b[0]));
            assert(a.contains(b[0]));
            assert(false);
        }
        assert(a =~= b);
    } else if b.len() == 0 {
        assert(a.to_set().contains(a[0]));
        assert(b.contains(a[0]));
        assert(false);
    } else {
        assert(a.to_set().contains(a[0]));
        assert(b.contains(a[0]));
        let k = choose|k: int| 0 <= k < b.len() && b[k] == a[0];
        assert(seq_le(b[0], a[0])) by {
            if k > 0 {
                assert(seq_le(b[0], b[k]));
            } else {
                crate::text::lemma_seq_le_total(b[0], a[0]);
            }
        }
        assert(b.to_set().contains(b[0]));
        assert(a.contains(b[0]));
        let m = choose|m: int| 0 <= m < a.len() && a[m] == b[0];
        assert(seq_le(a[0], b[0])) by {
            if m > 0 {
                assert(seq_le(a[0], a[m]));
            } else {
                crate::text::lemma_seq_le_total(a[0], b[0]);
            }
        }
        crate::text::lemma_seq_le_antisymmetric(a[0], b[0]);
        assert(a[0] == b[0]);
        let at = a.skip(1);
        let bt = b.skip(1);
        assert(at.to_set() =~= a.to_set().remove(a[0])) by {
            assert forall|e: Seq<char>| at.to_set().contains(e) implies a.to_set().remove(
                a[0],
            ).contains(e) by {
                let i = choose|i: int| 0 <= i < at.len() && at[i] == e;
                assert(a[i + 1] == e);
                assert(a[0] != a[i + 1]);
            }
            assert forall|e: Seq<char>| a.to_set().remove(a[0]).contains(e) implies at.to_set()
                .contains(e) by {
                let i = choose|i: int| 0 <= i < a.len() && a[i] == e;
                assert(i > 0);
                assert(at[i - 1] == e);
            }
        }
        assert(bt.to_set() =~= b.to_set().remove(b[0])) by {
            assert forall|e: Seq<char>| bt.to_set().contains(e) implies b.to_set().remove(
                b[0],
            ).contains(e) by {
                let i = choose|i: int| 0 <= i < bt.len() && bt[i] == e;
                assert(b[i + 1] == e);
                assert(b[0] != b[i + 1]);
            }
            assert forall|e: Seq<char>| b.to_set().remove(b[0]).contains(e) implies bt.to_set()
                .contains(e) by {
                let i = choose|i: int| 0 <= i < b.len() && b[i] == e;
                assert(i > 0);
                assert(bt[i - 1] == e);
            }
        }
        assert(sorted_unique(at)) by {
            assert(forall|i: int, j: int|
                0 <= i < j < at.len() ==> at[i] == a[i + 1] && at[j] == a[j + 1]);
        }
        assert(sorted_unique(bt)) by {
            assert(forall|i: int, j: int|
                0 <= i < j < bt.len() ==> bt[i] == b[i + 1] && bt[j] == b[j + 1]);
        }
        lemma_sorted_unique_same_set(at, bt);
        assert(a =~= b) by {
            assert(forall|i: int| 1 <= i < a.len() ==> a[i] == at[i - 1]);
            assert(forall|i: int| 1 <= i < b.len() ==> b[i] == bt[i - 1]);
        }
    }
}

/// Within one struct, the generic placeholders collected from the first
/// `i` fields are exactly `T1`, `T2`, ... in order: each dynamic-any field
/// takes the next sequential index, continuing across fields, and every
/// struct starts again from the first index.
pub proof fn lemma_struct_generic_names(fields: Seq<FieldModel>, i: int)
    requires
        0 <= i <= fields.len(),
    ensures
        struct_generics_upto(fields, i).len() == counter_before(fields, i),
        forall|j: int|
            0 <= j < struct_generics_upto(fields, i).len() ==> struct_generics_upto(
                fields,
                i,
            )[j].value == seq!['T'] + crate::text::dec_str((j + 1) as nat),
    decreases i,
{
    if i > 0 {
        lemma_struct_generic_names(fields, i - 1);
        crate::rust_type::lemma_generic_names(
            fields[i - 1].go_type,
            counter_before(fields, i - 1),
        );
        let prefix = struct_generics_upto(fields, i - 1);
        let tail = translated_generics(
            fields[i - 1].go_type,
            Some(counter_before(fields, i - 1)),
        );
        assert forall|j: int| 0 <= j < struct_generics_upto(fields, i).len() implies
            struct_generics_upto(fields, i)[j].value == seq!['T'] + crate::text::dec_str(
            (j + 1) as nat,
        ) by {
            if j < prefix.len() {
                assert((prefix + tail)[j] == prefix[j]);
            } else {
                assert((prefix + tail)[j] == tail[j - prefix.len()]);
            }
        }
    }
}

/// Within one struct, the generic placeholder names are pairwise distinct.
pub proof fn lemma_struct_generic_names_distinct(fields: Seq<FieldModel>, i: int)
    requires
        0 <= i <= fields.len(),
    ensures
        forall|p: int, q: int|
            0 <= p < q < struct_generics_upto(fields, i).len() ==> struct_generics_upto(
                fields,
                i,
            )[p].value != struct_generics_upto(fields, i)[q].value,
{
    lemma_struct_generic_names(fields, i);
    let gens = struct_generics_upto(fields, i);
    assert forall|p: int, q: int| 0 <= p < q < gens.len() implies gens[p].value
        != gens[q].value by {
        crate::text::lemma_dec_str_injective((p + 1) as nat, (q + 1) as nat);
        let a = seq!['T'] + crate::text::dec_str((p + 1) as nat);
        let b = seq!['T'] + crate::text::dec_str((q + 1) as nat);
        if a == b {
            assert(a.skip(1) =~= crate::text::dec_str((p + 1) as nat));
            assert(b.skip(1) =~= crate::text::dec_str((q + 1) as nat));
            assert(false);
        }
    }
}

/// An omit-capable field whose rendered type is neither the keyed
/// collection nor the plain string scalar is wrapped in the optional type;
/// a pointer-qualified field is omit-capable whatever its tag says, so this
/// holds of it in particular.
pub proof fn lemma_omit_wraps_optional(f: FieldModel, c: nat)
    requires
        f.omit_empty,
        !is_hashmap_render(translated_value(f.go_type, Some(c))),
        translated_value(f.go_type, Some(c)) != "String"@,
    ensures
        derived_value(f, c) == "Option<"@ + translated_value(f.go_type, Some(c)) + ">"@,
{
}

/// A keyed-collection field is never optional-wrapped, omit-tagged or not:
/// it keeps its rendered type and carries the null-to-empty-collection
/// override.
pub proof fn lemma_map_field_never_wrapped(f: FieldModel, c: nat)
    requires
        is_hashmap_render(translated_value(f.go_type, Some(c))),
    ensures
        derived_value(f, c) == translated_value(f.go_type, Some(c)),
        override_annotations(f, c) == seq![
            "#[serde(deserialize_with = \"deserialize_lambda_map\")]"@,
            "#[serde(default)]"@,
        ],
{
}

/// A plain string-scalar field always becomes the optional string scalar
/// with the null-coalescing decode rule, whatever its omit flag says.
pub proof fn lemma_string_field_coalesces(f: FieldModel, c: nat)
    requires
        translated_value(f.go_type, Some(c)) == "String"@,
    ensures
        derived_value(f, c) == "Option<String>"@,
        override_annotations(f, c) == seq![
            "#[serde(deserialize_with = \"deserialize_lambda_string\")]"@,
            "#[serde(default)]"@,
        ],
{
    reveal_strlit("String");
}

/// Inserts one import path into a sorted, duplicate-free row, keeping it so.
fn insert_sorted(v: &mut Vec<String>, x: &str)
    requires
        sorted_unique(old(v)@.map_values(|s: String| s@)),
    ensures
        sorted_unique(final(v)@.map_values(|s: String| s@)),
        libs_set(final(v)@) == libs_set(old(v)@).insert(x@),
{
    let ghost mo = old(v)@.map_values(|s: String| s@);
    let n = v.len();
    let mut p: usize = 0;
    while p < n && str_le(v[p].as_str(), x)
        invariant
            n == v@.len(),
            v@ == old(v)@,
            mo == old(v)@.map_values(|s: String| s@),
            sorted_unique(mo),
            p <= n,
            forall|i: int| 0 <= i < p ==> seq_le(#[trigger] mo[i], x@) && mo[i] != x@,
        decreases n - p,
    {
        if str_eq(v[p].as_str(), x) {
            proof {
                assert(mo[p as int] == x@);
                assert(libs_set(v@).contains(x@));
                assert(libs_set(v@) =~= libs_set(old(v)@).insert(x@));
            }
            return ;
        }
        p = p + 1;
    }
    proof {
        if p < n {
            crate::text::lemma_seq_le_total(mo[p as int], x@);
        }
    }
    v.insert(p, x.to_owned());
    proof {
        let m = v@.map_values(|s: String| s@);
        assert(m.len() == mo.len() + 1);
        assert(forall|i: int| 0 <= i < p ==> m[i] == mo[i]);
        assert(m[p as int] == x@);
        assert(forall|i: int| p < i < m.len() ==> m[i] == mo[i - 1]);
        assert forall|i: int, j: int| 0 <= i < j < m.len() implies (seq_le(
            #[trigger] m[i],
            #[trigger] m[j],
        ) && m[i] != m[j]) by {
            if i < p && j < p {
            } else if i < p && j == p {
                assert(seq_le(mo[i], x@) && mo[i] != x@);
            } else if i < p && j > p {
            } else if i == p && j > p {
                assert(m[j] == mo[j - 1]);
                assert(seq_le(x@, mo[p as int]));
                if j - 1 > p {
                    assert(seq_le(mo[p as int], mo[j - 1]));
                    crate::text::lemma_seq_le_transitive(x@, mo[p as int], mo[j - 1]);
                    if x@ == mo[j - 1] {
                        crate::text::lemma_seq_le_antisymmetric(mo[p as int], mo[j - 1]);
                        assert(false);
                    }
                } else {
                    if x@ == mo[p as int] {
                        assert(false);
                    }
                }
            } else {
            }
        }
        assert forall|e: Seq<char>| m.to_set().contains(e) implies mo.to_set().contains(e) || e
            == x@ by {
            let i = choose|i: int| 0 <= i < m.len() && m[i] == e;
            if i < p {
                assert(mo[i] == e);
            } else if i > p {
                assert(mo[i - 1] == e);
            }
        }
        assert forall|e: Seq<char>| mo.to_set().contains(e) implies m.to_set().contains(e) by {
            let i = choose|i: int| 0 <= i < mo.len() && mo[i] == e;
            if i < p {
                assert(m[i] == e);
            } else {
                assert(m[i + 1] == e);
            }
        }
        assert(m.to_set().contains(x@)) by {
            assert(m[p as int] == x@);
        }
        assert(libs_set(v@) =~= libs_set(old(v)@).insert(x@));
    }
}

/// Merges an accumulated import set into a module's import row, keeping the
/// row sorted and duplicate-free.
pub fn add_sorted_imports(imports: &mut Vec<String>, libraries: &Vec<String>)
    requires
        sorted_unique(old(imports)@.map_values(|s: String| s@)),
    ensures
        sorted_unique(final(imports)@.map_values(|s: String| s@)),
        libs_set(final(imports)@) == libs_set(old(imports)@).union(libs_set(libraries@)),
{
    let n = libraries.len();
    let mut i: usize = 0;
    while i < n
        invariant
            n == libraries@.len(),
            i <= n,
            sorted_unique(imports@.map_values(|s: String| s@)),
            libs_set(imports@) =~= libs_set(old(imports)@).union(
                libs_set(libraries@.take(i as int)),
            ),
        decreases n - i,
    {
        insert_sorted(imports, libraries[i].as_str());
        proof {
            assert(libraries@.take(i + 1 as int) =~= libraries@.take(i as int).push(
                libraries@[i as int],
            ));
            crate::rust_type::lemma_libs_set_push(libraries@.take(i as int), libraries@[i as int]);
        }
        i = i + 1;
    }
    proof {
        assert(libraries@.take(n as int) =~= libraries@);
        assert(libs_set(imports@) =~= libs_set(old(imports)@).union(libs_set(libraries@)));
    }
}


/// The position of the last `::` in an import path, or -1 when none.
pub open spec fn last_marker(s: Seq<char>) -> int
    decreases s.len(),
{
    if s.len() < 2 {
        -1
    } else if s[s.len() - 2] == ':' && s[s.len() - 1] == ':' {
        s.len() - 2
    } else {
        last_marker(s.drop_last())
    }
}

proof fn lemma_last_marker_at(s: Seq<char>, p: int)
    requires
        0 <= p,
        p + 1 < s.len(),
        s[p] == ':',
        s[p + 1] == ':',
        forall|q: int| p < q < s.len() - 1 ==> !((#[trigger] s[q]) == ':' && s[q + 1] == ':'),
    ensures
        last_marker(s) == p,
    decreases s.len(),
{
    if p == s.len() - 2 {
    } else {
        lemma_last_marker_at(s.drop_last(), p);
    }
}

proof fn lemma_last_marker_none(s: Seq<char>)
    requires
        forall|q: int| 0 <= q < s.len() - 1 ==> !((#[trigger] s[q]) == ':' && s[q + 1] == ':'),
    ensures
        last_marker(s) == -1,
    decreases s.len(),
{
    if s.len() >= 2 {
        lemma_last_marker_none(s.drop_last());
    }
}

/// Splits an import path at its last `::` into a from-path / item pair for
/// declaration as an explicit import. A path without `::` is an internal
/// expectation failure: every accumulated import path carries one.
pub fn split_import(lib: &str) -> (r: Result<(String, String), Error>)
    ensures
        last_marker(lib@) >= 0 ==> (r matches Ok(p) && p.0@ == lib@.take(last_marker(lib@))
            && p.1@ == lib@.skip(last_marker(lib@) + 2)),
        last_marker(lib@) < 0 ==> (r matches Err(e) && e is Internal),
{
    let n = lib.unicode_len();
    let mut q: usize = n;
    while q >= 2 && !(lib.get_char(q - 2) == ':' && lib.get_char(q - 1) == ':')
        invariant
            n == lib@.len(),
            q <= n,
            forall|j: int| q - 1 <= j < n - 1 ==> !((#[trigger] lib@[j]) == ':' && lib@[j + 1] == ':'),
        decreases q,
    {
        q = q - 1;
    }
    if q < 2 {
        proof {
            lemma_last_marker_none(lib@);
        }
        return Err(Error::Internal(String::from_str("import path without a separator")));
    }
    proof {
        lemma_last_marker_at(lib@, q - 2 as int);
    }
    let path = lib.substring_char(0, q - 2).to_owned();
    let item = lib.substring_char(q, n).to_owned();
    Ok((path, item))
}

} // verus!
