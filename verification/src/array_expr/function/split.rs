//! [SplitKind] and [SplitByCallable] impl.

use vstd::prelude::*;

use crate::array_expr::error::{Error, ErrorV};
use crate::array_expr::from_values::{ensure_single, ensure_single_spec, FromValues};
use crate::array_expr::function::case::{not_in_set, not_in_set_message};
use crate::array_expr::value::{str_value, TyKind, Value, ValueV};
use crate::array_expr::value_array::{lemma_vals_push, vals, ValueArray};
use crate::text::{char_is_upper, chars_eq_str, chars_of, is_upper, string_from_chars};

verus! {

/// Parts of a text between the occurrences of a separator, found left to right
/// without overlap, as `str::split` gives them. An empty separator does not split.
pub open spec fn split_text(t: Seq<char>, sep: Seq<char>) -> Seq<Seq<char>>
    decreases t.len(),
{
    if sep.len() == 0 || t.len() < sep.len() {
        seq![t]
    } else if t.take(sep.len() as int) == sep {
        seq![Seq::<char>::empty()] + split_text(t.skip(sep.len() as int), sep)
    } else {
        let rest = split_text(t.drop_first(), sep);
        rest.update(0, seq![t[0]] + rest[0])
    }
}

/// Parts of a text where every uppercase character starts a new part.
pub open spec fn split_camel(t: Seq<char>) -> Seq<Seq<char>>
    decreases t.len(),
{
    if t.len() == 0 {
        seq![Seq::<char>::empty()]
    } else {
        let r = split_camel(t.drop_last());
        if char_is_upper(t.last()) {
            r.push(seq![t.last()])
        } else {
            r.update(r.len() - 1, r.last().push(t.last()))
        }
    }
}

proof fn lemma_split_text_nonempty(t: Seq<char>, sep: Seq<char>)
    ensures
        split_text(t, sep).len() >= 1,
    decreases t.len(),
{
    if sep.len() == 0 || t.len() < sep.len() {
    } else if t.take(sep.len() as int) == sep {
    } else {
        lemma_split_text_nonempty(t.drop_first(), sep);
    }
}

proof fn lemma_split_camel_nonempty(t: Seq<char>)
    ensures
        split_camel(t).len() >= 1,
    decreases t.len(),
{
    if t.len() > 0 {
        lemma_split_camel_nonempty(t.drop_last());
    }
}

/// How values are split: by a separator, or before uppercase characters.
pub ghost enum SplitMode {
    /// By a separator.
    By(Seq<char>),
    /// Before every uppercase character.
    Camel,
}

/// Parts of a text for a split mode.
pub open spec fn parts_of(mode: SplitMode, t: Seq<char>) -> Seq<Seq<char>> {
    match mode {
        SplitMode::By(sep) => split_text(t, sep),
        SplitMode::Camel => split_camel(t),
    }
}

/// Parts as string values of a type.
pub open spec fn parts_values(parts: Seq<Seq<char>>, ty: TyKind) -> Seq<ValueV> {
    Seq::new(parts.len(), |i: int| str_value(parts[i], ty))
}

/// An array with every value split into parts, which keep the value's type.
pub open spec fn split_spec(mode: SplitMode, values: Seq<ValueV>) -> Seq<ValueV>
    decreases values.len(),
{
    if values.len() == 0 {
        Seq::empty()
    } else {
        split_spec(mode, values.drop_last()) + parts_values(parts_of(mode, values.last().text()), values.last().ty)
    }
}

/// Texts of character vectors.
pub open spec fn texts(v: Seq<Vec<char>>) -> Seq<Seq<char>> {
    v.map_values(|c: Vec<char>| c@)
}

/// Whether `sep` occurs in `t` at `i`.
fn occurs_at(t: &[char], i: usize, sep: &[char]) -> (r: bool)
    requires
        i + sep@.len() <= t@.len(),
    ensures
        r == (t@.skip(i as int).take(sep@.len() as int) == sep@),
{
    let mut k: usize = 0;
    while k < sep.len()
        invariant
            k <= sep@.len(),
            i + sep@.len() <= t@.len(),
            t@.len() == t.len(),
            forall|j: int| 0 <= j < k ==> t@[i + j] == sep@[j],
        decreases sep@.len() - k,
    {
        if t[i + k] != sep[k] {
            assert(t@.skip(i as int).take(sep@.len() as int)[k as int] != sep@[k as int]);
            return false;
        }
        k = k + 1;
    }
    assert(t@.skip(i as int).take(sep@.len() as int) =~= sep@);
    true
}

/// Parts of `t` from `i` on, split by `sep`.
fn split_from(t: &[char], i: usize, sep: &[char]) -> (r: Vec<Vec<char>>)
    requires
        i <= t@.len(),
    ensures
        texts(r@) == split_text(t@.skip(i as int), sep@),
    decreases t@.len() - i,
{
    let ghost s = t@.skip(i as int);
    if sep.len() == 0 || t.len() - i < sep.len() {
        let mut part: Vec<char> = Vec::new();
        let mut k: usize = i;
        while k < t.len()
            invariant
                i <= k <= t@.len(),
                part@ == t@.subrange(i as int, k as int),
            decreases t@.len() - k,
        {
            part.push(t[k]);
            k = k + 1;
            assert(part@ =~= t@.subrange(i as int, k as int));
        }
        assert(part@ =~= s);
        let mut r: Vec<Vec<char>> = Vec::new();
        r.push(part);
        assert(texts(r@) =~= seq![s]);
        return r;
    }
    if occurs_at(t, i, sep) {
        let mut r = split_from(t, i + sep.len(), sep);
        assert(t@.skip((i + sep@.len()) as int) =~= s.skip(sep@.len() as int));
        let ghost old_r = r@;
        r.insert(0, Vec::new());
        assert(texts(r@) =~= seq![Seq::<char>::empty()] + texts(old_r));
        r
    } else {
        let mut r = split_from(t, i + 1, sep);
        assert(t@.skip((i + 1) as int) =~= s.drop_first());
        proof {
            lemma_split_text_nonempty(s.drop_first(), sep@);
        }
        let ghost old_r = r@;
        let mut first = r.remove(0);
        let ghost old_first = first@;
        first.insert(0, t[i]);
        r.insert(0, first);
        assert(first@ =~= seq![s[0]] + old_first);
        assert(texts(r@) =~= texts(old_r).update(0, seq![s[0]] + texts(old_r)[0]));
        r
    }
}

/// Parts of `t` where every uppercase character starts a new part.
fn split_camel_chars(t: &[char]) -> (r: Vec<Vec<char>>)
    ensures
        texts(r@) == split_camel(t@),
{
    let mut r: Vec<Vec<char>> = Vec::new();
    r.push(Vec::new());
    assert(t@.subrange(0, 0) =~= Seq::<char>::empty());
    assert(texts(r@) =~= split_camel(t@.subrange(0, 0)));
    let mut i: usize = 0;
    while i < t.len()
        invariant
            i <= t@.len(),
            texts(r@) == split_camel(t@.subrange(0, i as int)),
            r@.len() >= 1,
        decreases t@.len() - i,
    {
        let c = t[i];
        let ghost pre = t@.subrange(0, i as int);
        let ghost post = t@.subrange(0, i + 1);
        assert(post.drop_last() =~= pre);
        assert(post.last() == c);
        let ghost old_r = r@;
        if is_upper(c) {
            let mut part: Vec<char> = Vec::new();
            part.push(c);
            r.push(part);
            assert(texts(r@) =~= texts(old_r).push(seq![c]));
        } else {
            let last = r.len() - 1;
            let mut part = r.remove(last);
            let ghost old_part = part@;
            part.push(c);
            r.push(part);
            assert(texts(r@) =~= texts(old_r).update(old_r.len() - 1, old_part.push(c)));
        }
        i = i + 1;
    }
    assert(t@.subrange(0, t@.len() as int) =~= t@);
    r
}

/// Split every value of an array, by a separator or else before uppercase characters.
fn split_values(array: ValueArray, sep: Option<&[char]>) -> (r: ValueArray)
    ensures
        r@ == split_spec(
            match sep {
                Some(s) => SplitMode::By(s@),
                None => SplitMode::Camel,
            },
            array@,
        ),
{
    let ghost mode = match sep {
        Some(s) => SplitMode::By(s@),
        None => SplitMode::Camel,
    };
    let ghost vs = array@;
    let values = array.into_vec();
    let mut out: Vec<Value> = Vec::new();
    let mut i: usize = 0;
    assert(vs.subrange(0, 0) =~= Seq::<ValueV>::empty());
    while i < values.len()
        invariant
            i <= values@.len(),
            vals(values@) == vs,
            vals(out@) == split_spec(mode, vs.subrange(0, i as int)),
            mode == match sep {
                Some(s) => SplitMode::By(s@),
                None => SplitMode::Camel,
            },
        decreases values@.len() - i,
    {
        let v = &values[i];
        assert(vs[i as int] == v@);
        let c = v.chars();
        let parts = match sep {
            Some(s) => split_from(c.as_slice(), 0, s),
            None => split_camel_chars(c.as_slice()),
        };
        assert(c@.skip(0) =~= c@);
        let ty = v.ty();
        let ghost start = out@;
        let mut k: usize = 0;
        while k < parts.len()
            invariant
                k <= parts@.len(),
                texts(parts@) == parts_of(mode, v@.text()),
                ty == v@.ty,
                vals(out@) == vals(start) + parts_values(parts_of(mode, v@.text()), ty).subrange(0, k as int),
            decreases parts@.len() - k,
        {
            let part = string_from_chars(parts[k].as_slice());
            let nv = Value::new(part).with_ty(ty);
            let ghost old_out = out@;
            out.push(nv);
            proof {
                lemma_vals_push(old_out, nv);
                assert(texts(parts@)[k as int] == parts@[k as int]@);
            }
            k = k + 1;
            assert(vals(out@) =~= vals(start) + parts_values(parts_of(mode, v@.text()), ty).subrange(0, k as int));
        }
        proof {
            let pv = parts_values(parts_of(mode, v@.text()), ty);
            assert(pv.subrange(0, pv.len() as int) =~= pv);
            let post = vs.subrange(0, i + 1);
            assert(post.drop_last() =~= vs.subrange(0, i as int));
            assert(post.last() == v@);
        }
        i = i + 1;
    }
    assert(vs.subrange(0, vs.len() as int) =~= vs);
    ValueArray::from_vec(out)
}

/// Split array values by a string.
#[derive(Debug)]
pub struct SplitByCallable {
    /// String to split values by.
    pub by: String,
}

impl SplitByCallable {
    /// Split by the text of a value.
    pub fn from_arg(arg: Value) -> (r: Self)
        ensures
            r.by@ == arg@.text(),
    {
        SplitByCallable { by: arg.text() }
    }

    /// Split every value of the array by the string.
    pub fn call(&self, array: ValueArray) -> (r: ValueArray)
        ensures
            r@ == split_spec(SplitMode::By(self.by@), array@),
    {
        let by = chars_of(self.by.as_str());
        split_values(array, Some(by.as_slice()))
    }
}

/// Keyword specified split.
#[derive(Debug, Clone, Copy, PartialEq, Eq, Structural)]
pub enum SplitKind {
    /// Split by dashes '-' (keyword `kebab`).
    Kebab,
    /// Split by underscores '_' (keyword `snake`).
    Snake,
    /// Split by double colons '::' (keyword `path`).
    Path,
    /// Split by spaces ' ' (keyword `space`).
    Space,
    /// Split by dots '.' (keyword `dot`).
    Dot,
    /// Split before every uppercase character (keyword `camel`).
    Camel,
}

impl View for SplitKind {
    type V = SplitKind;

    open spec fn view(&self) -> SplitKind {
        *self
    }
}

/// The split mode of each kind.
pub open spec fn split_mode(kind: SplitKind) -> SplitMode {
    match kind {
        SplitKind::Kebab => SplitMode::By("-"@),
        SplitKind::Snake => SplitMode::By("_"@),
        SplitKind::Path => SplitMode::By("::"@),
        SplitKind::Space => SplitMode::By(" "@),
        SplitKind::Dot => SplitMode::By("."@),
        SplitKind::Camel => SplitMode::Camel,
    }
}

/// The split kind a keyword names.
pub open spec fn split_kind_named(s: Seq<char>) -> Option<SplitKind> {
    if s == "kebab"@ {
        Some(SplitKind::Kebab)
    } else if s == "snake"@ {
        Some(SplitKind::Snake)
    } else if s == "path"@ {
        Some(SplitKind::Path)
    } else if s == "space"@ {
        Some(SplitKind::Space)
    } else if s == "dot"@ {
        Some(SplitKind::Dot)
    } else if s == "camel"@ {
        Some(SplitKind::Camel)
    } else {
        None
    }
}

/// Keywords of [SplitKind].
pub const SPLIT_KEYWORDS: &'static str = "kebab, snake, path, space, dot, camel";

impl SplitKind {
    /// The split kind a keyword names.
    pub fn from_name(s: &[char]) -> (r: Option<SplitKind>)
        ensures
            r == split_kind_named(s@),
    {
        if chars_eq_str(s, "kebab") {
            Some(SplitKind::Kebab)
        } else if chars_eq_str(s, "snake") {
            Some(SplitKind::Snake)
        } else if chars_eq_str(s, "path") {
            Some(SplitKind::Path)
        } else if chars_eq_str(s, "space") {
            Some(SplitKind::Space)
        } else if chars_eq_str(s, "dot") {
            Some(SplitKind::Dot)
        } else if chars_eq_str(s, "camel") {
            Some(SplitKind::Camel)
        } else {
            None
        }
    }

    /// Split every value of the array.
    pub fn call(&self, array: ValueArray) -> (r: ValueArray)
        ensures
            r@ == split_spec(split_mode(*self), array@),
    {
        match self {
            SplitKind::Kebab => {
                let s = chars_of("-");
                split_values(array, Some(s.as_slice()))
            },
            SplitKind::Snake => {
                let s = chars_of("_");
                split_values(array, Some(s.as_slice()))
            },
            SplitKind::Path => {
                let s = chars_of("::");
                split_values(array, Some(s.as_slice()))
            },
            SplitKind::Space => {
                let s = chars_of(" ");
                split_values(array, Some(s.as_slice()))
            },
            SplitKind::Dot => {
                let s = chars_of(".");
                split_values(array, Some(s.as_slice()))
            },
            SplitKind::Camel => split_values(array, None),
        }
    }
}

/// What converting values to a [SplitKind] gives.
pub open spec fn split_kind_from_values_spec(values: Seq<ValueV>) -> Result<SplitKind, ErrorV> {
    match ensure_single_spec(values) {
        Err(e) => Err(e),
        Ok(v) => match split_kind_named(v.text()) {
            Some(k) => Ok(k),
            None => Err(ErrorV::Owned(not_in_set_message(v.text(), SPLIT_KEYWORDS@))),
        },
    }
}

impl FromValues for SplitKind {
    open spec fn spec_from_values(values: Seq<ValueV>) -> Result<SplitKind, ErrorV> {
        split_kind_from_values_spec(values)
    }

    fn from_values(values: &[Value]) -> (r: Result<SplitKind, Error>) {
        let v = match ensure_single(values) {
            Ok(v) => v,
            Err(e) => return Err(e),
        };
        let c = v.chars();
        match SplitKind::from_name(c.as_slice()) {
            Some(k) => Ok(k),
            None => Err(not_in_set(c.as_slice(), SPLIT_KEYWORDS)),
        }
    }

    fn copy(&self) -> (r: SplitKind) {
        *self
    }
}

} // verus!
