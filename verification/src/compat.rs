//! Compatibility of serialized type layouts: a layout that was published
//! (cached) may only grow at its end, so that data written with it can still
//! be read. These checks compare a cached layout with the current one.

use vstd::prelude::*;

use crate::css::text::{chars_eq, str_chars};

verus! {

/// The kind of an enum variant.
#[derive(Debug, Clone, Copy, PartialEq, Eq, Structural)]
pub enum EnumType {
    Unit,
    Named,
    Unnamed,
}

/// The layout of one enum variant: its kind, its name and the types of its
/// fields, as written.
#[derive(Debug)]
pub struct EnumItem {
    pub typing: EnumType,
    pub ident: String,
    pub field: Vec<String>,
}

/// Why a current layout is not compatible with the cached one. Each error
/// has its own code (see `code`).
#[derive(Debug, Clone, Copy, PartialEq, Eq, Structural)]
pub enum CompatError {
    /// The enum has fewer variants than cached.
    VariantsRemoved { cached: usize, current: usize },
    /// The variant at `idx` changed its kind.
    VariantKindChanged { idx: usize },
    /// The unit variant at `idx` was renamed.
    UnitVariantRenamed { idx: usize },
    /// The variant with named fields at `idx` was renamed.
    NamedVariantRenamed { idx: usize },
    /// The variant with named fields at `idx` lost fields.
    NamedFieldsRemoved { idx: usize },
    /// Field `field` of the variant with named fields at `variant` changed.
    NamedFieldChanged { variant: usize, field: usize },
    /// The tuple variant at `idx` was renamed.
    UnnamedVariantRenamed { idx: usize },
    /// The tuple variant at `idx` has another number of fields.
    UnnamedFieldCountChanged { idx: usize },
    /// Field `field` of the tuple variant at `variant` changed (spaces aside).
    UnnamedFieldChanged { variant: usize, field: usize },
    /// The struct has fewer fields than cached.
    FieldsRemoved { cached: usize, current: usize },
    /// The struct field at `idx` changed.
    FieldChanged { idx: usize },
}

impl CompatError {
    /// The code of each error: 1000 to 1008 for enums, 2000 and 2001 for
    /// structs.
    pub open spec fn spec_code(self) -> u32 {
        match self {
            CompatError::VariantsRemoved { .. } => 1000,
            CompatError::VariantKindChanged { .. } => 1001,
            CompatError::UnitVariantRenamed { .. } => 1002,
            CompatError::NamedVariantRenamed { .. } => 1003,
            CompatError::NamedFieldsRemoved { .. } => 1004,
            CompatError::NamedFieldChanged { .. } => 1005,
            CompatError::UnnamedVariantRenamed { .. } => 1006,
            CompatError::UnnamedFieldCountChanged { .. } => 1007,
            CompatError::UnnamedFieldChanged { .. } => 1008,
            CompatError::FieldsRemoved { .. } => 2000,
            CompatError::FieldChanged { .. } => 2001,
        }
    }

    /// The code of the error.
    pub fn code(&self) -> (r: u32)
        ensures
            r == self.spec_code(),
    {
        match self {
            CompatError::VariantsRemoved { .. } => 1000,
            CompatError::VariantKindChanged { .. } => 1001,
            CompatError::UnitVariantRenamed { .. } => 1002,
            CompatError::NamedVariantRenamed { .. } => 1003,
            CompatError::NamedFieldsRemoved { .. } => 1004,
            CompatError::NamedFieldChanged { .. } => 1005,
            CompatError::UnnamedVariantRenamed { .. } => 1006,
            CompatError::UnnamedFieldCountChanged { .. } => 1007,
            CompatError::UnnamedFieldChanged { .. } => 1008,
            CompatError::FieldsRemoved { .. } => 2000,
            CompatError::FieldChanged { .. } => 2001,
        }
    }
}

/// Each compatibility error has its own code: 1000 to 1008 for enums, in
/// the order of the checks, and 2000 and 2001 for structs.
pub proof fn law_error_codes(a: CompatError, b: CompatError)
    ensures
        a.spec_code() == b.spec_code() <==> (a == b || (a is VariantsRemoved && b is VariantsRemoved) || (a is VariantKindChanged
            && b is VariantKindChanged) || (a is UnitVariantRenamed && b is UnitVariantRenamed) || (a is NamedVariantRenamed
            && b is NamedVariantRenamed) || (a is NamedFieldsRemoved && b is NamedFieldsRemoved) || (a is NamedFieldChanged
            && b is NamedFieldChanged) || (a is UnnamedVariantRenamed && b is UnnamedVariantRenamed) || (
        a is UnnamedFieldCountChanged && b is UnnamedFieldCountChanged) || (a is UnnamedFieldChanged
            && b is UnnamedFieldChanged) || (a is FieldsRemoved && b is FieldsRemoved) || (a is FieldChanged
            && b is FieldChanged)),
        a is VariantsRemoved ==> a.spec_code() == 1000,
        a is VariantKindChanged ==> a.spec_code() == 1001,
        a is UnitVariantRenamed ==> a.spec_code() == 1002,
        a is NamedVariantRenamed ==> a.spec_code() == 1003,
        a is NamedFieldsRemoved ==> a.spec_code() == 1004,
        a is NamedFieldChanged ==> a.spec_code() == 1005,
        a is UnnamedVariantRenamed ==> a.spec_code() == 1006,
        a is UnnamedFieldCountChanged ==> a.spec_code() == 1007,
        a is UnnamedFieldChanged ==> a.spec_code() == 1008,
        a is FieldsRemoved ==> a.spec_code() == 2000,
        a is FieldChanged ==> a.spec_code() == 2001,
{
}

/// The chars of each string.
pub open spec fn texts(s: Seq<String>) -> Seq<Seq<char>> {
    s.map_values(|x: String| x@)
}

/// `s` without its spaces.
pub open spec fn without_spaces(s: Seq<char>) -> Seq<char>
    decreases s.len(),
{
    if s.len() == 0 {
        s
    } else if s.last() == ' ' {
        without_spaces(s.drop_last())
    } else {
        without_spaces(s.drop_last()).push(s.last())
    }
}

/// Whether two field types differ: as written, or, where `ignore_spaces`,
/// once their spaces are removed.
pub open spec fn field_differs(cached: Seq<char>, current: Seq<char>, ignore_spaces: bool) -> bool {
    if ignore_spaces {
        without_spaces(current) != without_spaces(cached)
    } else {
        current != cached
    }
}

/// The first index from `j` on at which a cached field type differs from
/// the current one.
pub open spec fn first_field_change(
    cached: Seq<Seq<char>>,
    current: Seq<Seq<char>>,
    j: int,
    ignore_spaces: bool,
) -> Option<int>
    decreases cached.len() - j,
{
    if j < 0 || j >= cached.len() {
        None
    } else if field_differs(cached[j], current[j], ignore_spaces) {
        Some(j)
    } else {
        first_field_change(cached, current, j + 1, ignore_spaces)
    }
}

/// What is wrong with the current variant `n` at `idx`, given the cached
/// variant `p`: its kind and name must stay; a variant with named fields may
/// only gain fields at its end; a tuple variant keeps its fields, spaces in
/// their types aside.
pub open spec fn spec_compare_variant(p: EnumItem, n: EnumItem, idx: int) -> Option<CompatError> {
    let i = idx as usize;
    if p.typing != n.typing {
        Some(CompatError::VariantKindChanged { idx: i })
    } else {
        match n.typing {
            EnumType::Unit => if n.ident@ != p.ident@ {
                Some(CompatError::UnitVariantRenamed { idx: i })
            } else {
                None
            },
            EnumType::Named => if n.ident@ != p.ident@ {
                Some(CompatError::NamedVariantRenamed { idx: i })
            } else if n.field@.len() < p.field@.len() {
                Some(CompatError::NamedFieldsRemoved { idx: i })
            } else {
                match first_field_change(texts(p.field@), texts(n.field@), 0, false) {
                    Some(j) => Some(CompatError::NamedFieldChanged { variant: i, field: j as usize }),
                    None => None,
                }
            },
            EnumType::Unnamed => if n.ident@ != p.ident@ {
                Some(CompatError::UnnamedVariantRenamed { idx: i })
            } else if n.field@.len() != p.field@.len() {
                Some(CompatError::UnnamedFieldCountChanged { idx: i })
            } else {
                match first_field_change(texts(p.field@), texts(n.field@), 0, true) {
                    Some(j) => Some(CompatError::UnnamedFieldChanged { variant: i, field: j as usize }),
                    None => None,
                }
            },
        }
    }
}

/// The first failing variant check from index `i` on.
pub open spec fn spec_compare_variants_from(prev: Seq<EnumItem>, next: Seq<EnumItem>, i: int) -> Result<(), CompatError>
    decreases prev.len() - i,
{
    if i < 0 || i >= prev.len() {
        Ok(())
    } else {
        match spec_compare_variant(prev[i], next[i], i) {
            Some(e) => Err(e),
            None => spec_compare_variants_from(prev, next, i + 1),
        }
    }
}

/// Whether the current variants `next` of an enum are compatible with the
/// cached ones `prev`: none removed, and each cached variant kept as
/// `spec_compare_variant` says; the first failure is reported.
pub open spec fn spec_compare_enum(prev: Seq<EnumItem>, next: Seq<EnumItem>) -> Result<(), CompatError> {
    if next.len() < prev.len() {
        Err(CompatError::VariantsRemoved { cached: prev.len() as usize, current: next.len() as usize })
    } else {
        spec_compare_variants_from(prev, next, 0)
    }
}

/// Whether the current fields `next` of a struct are compatible with the
/// cached ones `prev`: none removed and each cached one unchanged; the first
/// failure is reported.
pub open spec fn spec_compare_struct(prev: Seq<Seq<char>>, next: Seq<Seq<char>>) -> Result<(), CompatError> {
    if next.len() < prev.len() {
        Err(CompatError::FieldsRemoved { cached: prev.len() as usize, current: next.len() as usize })
    } else {
        match first_field_change(prev, next, 0, false) {
            Some(j) => Err(CompatError::FieldChanged { idx: j as usize }),
            None => Ok(()),
        }
    }
}

/// The chars of `s` without its spaces.
fn strip_spaces(s: &str) -> (r: Vec<char>)
    ensures
        r@ == without_spaces(s@),
{
    let v = str_chars(s);
    let mut out: Vec<char> = Vec::new();
    let mut i: usize = 0;
    while i < v.len()
        invariant
            v@ == s@,
            i <= v@.len(),
            out@ == without_spaces(s@.take(i as int)),
        decreases v@.len() - i,
    {
        let ghost t = s@.take(i as int + 1);
        assert(t.drop_last() =~= s@.take(i as int));
        if v[i] != ' ' {
            out.push(v[i]);
        }
        i = i + 1;
    }
    assert(s@.take(v@.len() as int) =~= s@);
    out
}

/// Whether two field types differ; see `field_differs`.
fn fields_differ(cached: &String, current: &String, ignore_spaces: bool) -> (r: bool)
    ensures
        r == field_differs(cached@, current@, ignore_spaces),
{
    if ignore_spaces {
        let a = strip_spaces(current.as_str());
        let b = strip_spaces(cached.as_str());
        let same = chars_eq(a.as_slice(), b.as_slice());
        proof {
            if same {
                assert(a@ =~= b@);
            }
        }
        !same
    } else {
        let a = str_chars(current.as_str());
        let b = str_chars(cached.as_str());
        let same = chars_eq(a.as_slice(), b.as_slice());
        proof {
            if same {
                assert(a@ =~= b@);
            }
        }
        !same
    }
}

/// The first index at which a cached field type differs from the current
/// one; see `first_field_change`.
fn find_field_change(cached: &Vec<String>, current: &Vec<String>, ignore_spaces: bool) -> (r: Option<usize>)
    requires
        current@.len() >= cached@.len(),
    ensures
        match first_field_change(texts(cached@), texts(current@), 0, ignore_spaces) {
            Some(j) => r == Some(j as usize),
            None => r is None,
        },
{
    let ghost c = texts(cached@);
    let ghost n = texts(current@);
    let mut j: usize = 0;
    while j < cached.len()
        invariant
            j <= cached@.len(),
            current@.len() >= cached@.len(),
            c == texts(cached@),
            n == texts(current@),
            first_field_change(c, n, 0, ignore_spaces) == first_field_change(c, n, j as int, ignore_spaces),
        decreases cached@.len() - j,
    {
        if fields_differ(&cached[j], &current[j], ignore_spaces) {
            return Some(j);
        }
        j = j + 1;
    }
    None
}

/// What is wrong with the current variant `n` at `idx`; see
/// `spec_compare_variant`.
pub fn compare_variant(p: &EnumItem, n: &EnumItem, idx: usize) -> (r: Option<CompatError>)
    ensures
        r == spec_compare_variant(*p, *n, idx as int),
{
    if p.typing != n.typing {
        return Some(CompatError::VariantKindChanged { idx });
    }
    let same_name = {
        let a = str_chars(n.ident.as_str());
        let b = str_chars(p.ident.as_str());
        let same = chars_eq(a.as_slice(), b.as_slice());
        proof {
            if same {
                assert(a@ =~= b@);
            }
        }
        same
    };
    match n.typing {
        EnumType::Unit => if !same_name {
            Some(CompatError::UnitVariantRenamed { idx })
        } else {
            None
        },
        EnumType::Named => if !same_name {
            Some(CompatError::NamedVariantRenamed { idx })
        } else if n.field.len() < p.field.len() {
            Some(CompatError::NamedFieldsRemoved { idx })
        } else {
            match find_field_change(&p.field, &n.field, false) {
                Some(j) => Some(CompatError::NamedFieldChanged { variant: idx, field: j }),
                None => None,
            }
        },
        EnumType::Unnamed => if !same_name {
            Some(CompatError::UnnamedVariantRenamed { idx })
        } else if n.field.len() != p.field.len() {
            Some(CompatError::UnnamedFieldCountChanged { idx })
        } else {
            match find_field_change(&p.field, &n.field, true) {
                Some(j) => Some(CompatError::UnnamedFieldChanged { variant: idx, field: j }),
                None => None,
            }
        },
    }
}

/// Checks that the current variants `next` of an enum are compatible with
/// the cached ones `prev`; see `spec_compare_enum`.
pub fn compare_enum_items(prev: &Vec<EnumItem>, next: &Vec<EnumItem>) -> (r: Result<(), CompatError>)
    ensures
        r == spec_compare_enum(prev@, next@),
{
    if next.len() < prev.len() {
        return Err(CompatError::VariantsRemoved { cached: prev.len(), current: next.len() });
    }
    let mut i: usize = 0;
    while i < prev.len()
        invariant
            i <= prev@.len(),
            next@.len() >= prev@.len(),
            spec_compare_variants_from(prev@, next@, 0) == spec_compare_variants_from(prev@, next@, i as int),
        decreases prev@.len() - i,
    {
        match compare_variant(&prev[i], &next[i], i) {
            Some(e) => {
                return Err(e);
            },
            None => {},
        }
        i = i + 1;
    }
    Ok(())
}

/// Checks that the current field types `next` of a struct are compatible
/// with the cached ones `prev`; see `spec_compare_struct`.
pub fn compare_struct_fields(prev: &Vec<String>, next: &Vec<String>) -> (r: Result<(), CompatError>)
    ensures
        r == spec_compare_struct(texts(prev@), texts(next@)),
{
    if next.len() < prev.len() {
        return Err(CompatError::FieldsRemoved { cached: prev.len(), current: next.len() });
    }
    match find_field_change(prev, next, false) {
        Some(j) => Err(CompatError::FieldChanged { idx: j }),
        None => Ok(()),
    }
}

/// Whether the current variant `n` keeps the cached variant `p`: the same
/// kind and name; for named fields, the cached fields first and unchanged;
/// for a tuple variant, as many fields, each unchanged once spaces are
/// removed.
pub open spec fn variant_kept(p: EnumItem, n: EnumItem) -> bool {
    &&& p.typing == n.typing
    &&& n.ident@ == p.ident@
    &&& match p.typing {
        EnumType::Unit => true,
        EnumType::Named => n.field@.len() >= p.field@.len() && forall|j: int|
            0 <= j < p.field@.len() ==> #[trigger] n.field@[j]@ == p.field@[j]@,
        EnumType::Unnamed => n.field@.len() == p.field@.len() && forall|j: int|
            0 <= j < p.field@.len() ==> without_spaces(#[trigger] n.field@[j]@) == without_spaces(p.field@[j]@),
    }
}

/// `first_field_change` finds the first differing field, and finds none
/// only where no field differs.
proof fn lemma_first_field_change(c: Seq<Seq<char>>, n: Seq<Seq<char>>, j: int, ign: bool)
    requires
        0 <= j <= c.len(),
    ensures
        match first_field_change(c, n, j, ign) {
            None => forall|k: int| j <= k < c.len() ==> !field_differs(#[trigger] c[k], n[k], ign),
            Some(k) => j <= k < c.len() && field_differs(c[k], n[k], ign) && forall|m: int|
                j <= m < k ==> !field_differs(#[trigger] c[m], n[m], ign),
        },
    decreases c.len() - j,
{
    if j < c.len() && !field_differs(c[j], n[j], ign) {
        lemma_first_field_change(c, n, j + 1, ign);
        match first_field_change(c, n, j, ign) {
            None => {
                assert forall|k: int| j <= k < c.len() implies !field_differs(#[trigger] c[k], n[k], ign) by {
                    if k > j {
                        assert(!field_differs(c[k], n[k], ign));
                    }
                }
            },
            Some(k) => {
                assert forall|m: int| j <= m < k implies !field_differs(#[trigger] c[m], n[m], ign) by {
                    if m > j {
                        assert(!field_differs(c[m], n[m], ign));
                    }
                }
            },
        }
    }
}

/// The check of one variant: it finds nothing wrong exactly where the
/// current variant keeps the cached one; a changed kind, and a renamed
/// variant of each kind, are reported as such, at the variant's index.
pub proof fn law_variant_check(p: EnumItem, n: EnumItem, idx: int)
    ensures
        spec_compare_variant(p, n, idx) is None <==> variant_kept(p, n),
        p.typing != n.typing ==> spec_compare_variant(p, n, idx) == Some(
            CompatError::VariantKindChanged { idx: idx as usize },
        ),
        p.typing == n.typing && n.ident@ != p.ident@ ==> spec_compare_variant(p, n, idx) == Some(
            match p.typing {
                EnumType::Unit => CompatError::UnitVariantRenamed { idx: idx as usize },
                EnumType::Named => CompatError::NamedVariantRenamed { idx: idx as usize },
                EnumType::Unnamed => CompatError::UnnamedVariantRenamed { idx: idx as usize },
            },
        ),
{
    let pt = texts(p.field@);
    let nt = texts(n.field@);
    if p.typing == n.typing && n.ident@ == p.ident@ {
        match p.typing {
            EnumType::Named => if n.field@.len() >= p.field@.len() {
                lemma_first_field_change(pt, nt, 0, false);
                if first_field_change(pt, nt, 0, false) is None {
                    assert forall|j: int| 0 <= j < p.field@.len() implies #[trigger] n.field@[j]@ == p.field@[j]@ by {
                        assert(!field_differs(pt[j], nt[j], false));
                    }
                } else {
                    let k = first_field_change(pt, nt, 0, false)->Some_0;
                    assert(field_differs(pt[k], nt[k], false));
                    assert(n.field@[k]@ != p.field@[k]@);
                }
            },
            EnumType::Unnamed => if n.field@.len() == p.field@.len() {
                lemma_first_field_change(pt, nt, 0, true);
                if first_field_change(pt, nt, 0, true) is None {
                    assert forall|j: int| 0 <= j < p.field@.len() implies without_spaces(
                        #[trigger] n.field@[j]@,
                    ) == without_spaces(p.field@[j]@) by {
                        assert(!field_differs(pt[j], nt[j], true));
                    }
                } else {
                    let k = first_field_change(pt, nt, 0, true)->Some_0;
                    assert(field_differs(pt[k], nt[k], true));
                    assert(without_spaces(n.field@[k]@) != without_spaces(p.field@[k]@));
                }
            },
            EnumType::Unit => {},
        }
    }
}

/// The variant checks from `i` on find the first variant that is not kept.
proof fn lemma_variants_from(prev: Seq<EnumItem>, next: Seq<EnumItem>, i: int)
    requires
        0 <= i <= prev.len(),
    ensures
        spec_compare_variants_from(prev, next, i) is Ok <==> forall|k: int|
            i <= k < prev.len() ==> spec_compare_variant(#[trigger] prev[k], next[k], k) is None,
        forall|k: int|
            i <= k < prev.len() && spec_compare_variant(#[trigger] prev[k], next[k], k) is Some && (forall|m: int|
                i <= m < k ==> spec_compare_variant(#[trigger] prev[m], next[m], m) is None) ==> spec_compare_variants_from(
                prev,
                next,
                i,
            ) == Err::<(), CompatError>(spec_compare_variant(prev[k], next[k], k)->Some_0),
    decreases prev.len() - i,
{
    if i < prev.len() {
        lemma_variants_from(prev, next, i + 1);
        if spec_compare_variant(prev[i], next[i], i) is None {
            assert forall|k: int|
                i <= k < prev.len() && spec_compare_variant(#[trigger] prev[k], next[k], k) is Some && (forall|m: int|
                    i <= m < k ==> spec_compare_variant(#[trigger] prev[m], next[m], m) is None) implies spec_compare_variants_from(
                prev,
                next,
                i,
            ) == Err::<(), CompatError>(spec_compare_variant(prev[k], next[k], k)->Some_0) by {
                assert(k != i);
                assert forall|m: int| i + 1 <= m < k implies spec_compare_variant(#[trigger] prev[m], next[m], m) is None by {
                    assert(i <= m < k);
                }
            }
        } else {
            assert forall|k: int|
                i <= k < prev.len() && spec_compare_variant(#[trigger] prev[k], next[k], k) is Some && (forall|m: int|
                    i <= m < k ==> spec_compare_variant(#[trigger] prev[m], next[m], m) is None) implies spec_compare_variants_from(
                prev,
                next,
                i,
            ) == Err::<(), CompatError>(spec_compare_variant(prev[k], next[k], k)->Some_0) by {
                if k > i {
                    assert(spec_compare_variant(prev[i], next[i], i) is None);
                }
            }
        }
    }
}

/// The enum check: fewer variants than cached is an error of its own;
/// otherwise the enum is compatible exactly where every cached variant is
/// kept, and where one is not, the error of the first such variant is
/// reported.
pub proof fn law_enum_check(prev: Seq<EnumItem>, next: Seq<EnumItem>)
    ensures
        next.len() < prev.len() ==> spec_compare_enum(prev, next) == Err::<(), CompatError>(
            CompatError::VariantsRemoved { cached: prev.len() as usize, current: next.len() as usize },
        ),
        spec_compare_enum(prev, next) is Ok <==> (next.len() >= prev.len() && forall|i: int|
            0 <= i < prev.len() ==> variant_kept(#[trigger] prev[i], next[i])),
        forall|i: int|
            0 <= i < prev.len() && next.len() >= prev.len() && !variant_kept(#[trigger] prev[i], next[i]) && (forall|k: int|
                0 <= k < i ==> variant_kept(#[trigger] prev[k], next[k])) ==> spec_compare_variant(prev[i], next[i], i) is Some
                && spec_compare_enum(prev, next) == Err::<(), CompatError>(spec_compare_variant(prev[i], next[i], i)->Some_0),
{
    lemma_variants_from(prev, next, 0);
    assert forall|i: int| 0 <= i < prev.len() implies (spec_compare_variant(#[trigger] prev[i], next[i], i) is None
        <==> variant_kept(prev[i], next[i])) by {
        law_variant_check(prev[i], next[i], i);
    }
    if next.len() >= prev.len() {
        assert forall|i: int|
            0 <= i < prev.len() && next.len() >= prev.len() && !variant_kept(#[trigger] prev[i], next[i]) && (forall|k: int|
                0 <= k < i ==> variant_kept(#[trigger] prev[k], next[k])) implies spec_compare_variant(prev[i], next[i], i) is Some
                && spec_compare_enum(prev, next) == Err::<(), CompatError>(spec_compare_variant(prev[i], next[i], i)->Some_0) by {
            assert forall|m: int| 0 <= m < i implies spec_compare_variant(#[trigger] prev[m], next[m], m) is None by {
                assert(variant_kept(prev[m], next[m]));
            }
        }
    }
}

/// The struct check: fewer fields than cached is an error of its own;
/// otherwise the struct is compatible exactly where every cached field is
/// unchanged, and the first changed field is reported.
pub proof fn law_struct_check(prev: Seq<Seq<char>>, next: Seq<Seq<char>>)
    ensures
        next.len() < prev.len() ==> spec_compare_struct(prev, next) == Err::<(), CompatError>(
            CompatError::FieldsRemoved { cached: prev.len() as usize, current: next.len() as usize },
        ),
        spec_compare_struct(prev, next) is Ok <==> (next.len() >= prev.len() && forall|i: int|
            0 <= i < prev.len() ==> #[trigger] next[i] == prev[i]),
        forall|i: int|
            0 <= i < prev.len() && next.len() >= prev.len() && #[trigger] next[i] != prev[i] && (forall|k: int|
                0 <= k < i ==> #[trigger] next[k] == prev[k]) ==> spec_compare_struct(prev, next) == Err::<(), CompatError>(
                CompatError::FieldChanged { idx: i as usize },
            ),
{
    lemma_first_field_change(prev, next, 0, false);
    if next.len() >= prev.len() {
        match first_field_change(prev, next, 0, false) {
            None => {
                assert forall|i: int| 0 <= i < prev.len() implies #[trigger] next[i] == prev[i] by {
                    assert(!field_differs(prev[i], next[i], false));
                }
            },
            Some(j) => {
                assert(field_differs(prev[j], next[j], false));
                assert forall|i: int|
                    0 <= i < prev.len() && next.len() >= prev.len() && #[trigger] next[i] != prev[i] && (forall|k: int|
                        0 <= k < i ==> #[trigger] next[k] == prev[k]) implies spec_compare_struct(prev, next) == Err::<
                    (),
                    CompatError,
                >(CompatError::FieldChanged { idx: i as usize }) by {
                    if i < j {
                        assert(!field_differs(prev[i], next[i], false));
                    } else if j < i {
                        assert(next[j] == prev[j]);
                    }
                }
            },
        }
    }
}

} // verus!
