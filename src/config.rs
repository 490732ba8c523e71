use vstd::prelude::*;

use crate::models::{EnabledModels, ModelKind};

verus! {

/// Why a setting could not be read.
#[derive(PartialEq, Eq, Structural, Clone, Copy, Debug)]
pub enum ConfigError {
    /// The model list names something other than the three models.
    UnknownModel,
    /// A count is empty, holds a character that is not a decimal digit, or
    /// does not fit in 64 bits.
    BadNumber,
}

/// The model that `t` names, if any.
pub open spec fn model_named(t: Seq<char>) -> Option<ModelKind> {
    if t == seq!['r', 'e', 'd', 'u', 'c', 't', 'i', 'o', 'n'] {
        Some(ModelKind::Reduction)
    } else if t == seq!['c', 'l', 'a', 's', 's', 'i', 'f', 'i', 'c', 'a', 't', 'i', 'o', 'n'] {
        Some(ModelKind::Classification)
    } else if t == seq!['c', 'l', 'u', 's', 't', 'e', 'r', 'i', 'n', 'g'] {
        Some(ModelKind::Clustering)
    } else {
        None
    }
}

/// The entries of a comma-separated list, spaces dropped; empty entries are kept.
pub open spec fn list_entries(s: Seq<char>) -> Seq<Seq<char>>
    decreases s.len(),
{
    if s.len() == 0 {
        seq![Seq::<char>::empty()]
    } else {
        let e = list_entries(s.drop_last());
        if s.last() == ',' {
            e.push(Seq::<char>::empty())
        } else if s.last() == ' ' {
            e
        } else {
            e.update(e.len() - 1, e.last().push(s.last()))
        }
    }
}

/// Some entry of `es` names `kind`.
pub open spec fn names(es: Seq<Seq<char>>, kind: ModelKind) -> bool {
    exists|i: int| 0 <= i < es.len() && model_named(#[trigger] es[i]) == Some(kind)
}

/// An entry is empty or names a model.
pub open spec fn entry_ok(t: Seq<char>) -> bool {
    t.len() == 0 || model_named(t) is Some
}

/// The models that the list `s` asks for.
pub open spec fn enabled_by(s: Seq<char>) -> Result<EnabledModels, ConfigError> {
    let es = list_entries(s);
    if forall|i: int| 0 <= i < es.len() ==> entry_ok(#[trigger] es[i]) {
        Ok(
            EnabledModels {
                reduction: names(es, ModelKind::Reduction),
                classification: names(es, ModelKind::Classification),
                clustering: names(es, ModelKind::Clustering),
            },
        )
    } else {
        Err(ConfigError::UnknownModel)
    }
}

proof fn lemma_entries_nonempty(s: Seq<char>)
    ensures
        list_entries(s).len() >= 1,
    decreases s.len(),
{
    if s.len() > 0 {
        lemma_entries_nonempty(s.drop_last());
    }
}

pub open spec fn views(v: Seq<Vec<char>>) -> Seq<Seq<char>> {
    v.map_values(|x: Vec<char>| x@)
}

fn same_chars(a: &Vec<char>, b: &Vec<char>) -> (r: bool)
    ensures
        r == (a@ == b@),
{
    if a.len() != b.len() {
        return false;
    }
    let mut i: usize = 0;
    while i < a.len()
        invariant
            a@.len() == b@.len(),
            i <= a@.len(),
            forall|j: int| 0 <= j < i ==> a@[j] == b@[j],
        decreases a@.len() - i,
    {
        if a[i] != b[i] {
            return false;
        }
        i = i + 1;
    }
    assert(a@ =~= b@);
    true
}

fn kind_named(t: &Vec<char>) -> (r: Option<ModelKind>)
    ensures
        r == model_named(t@),
{
    let reduction: Vec<char> = vec!['r', 'e', 'd', 'u', 'c', 't', 'i', 'o', 'n'];
    let classification: Vec<char> = vec!['c', 'l', 'a', 's', 's', 'i', 'f', 'i', 'c', 'a', 't', 'i', 'o', 'n'];
    let clustering: Vec<char> = vec!['c', 'l', 'u', 's', 't', 'e', 'r', 'i', 'n', 'g'];
    if same_chars(t, &reduction) {
        Some(ModelKind::Reduction)
    } else if same_chars(t, &classification) {
        Some(ModelKind::Classification)
    } else if same_chars(t, &clustering) {
        Some(ModelKind::Clustering)
    } else {
        None
    }
}

fn split_entries(s: &str) -> (r: Vec<Vec<char>>)
    ensures
        views(r@) == list_entries(s@),
{
    let n = s.unicode_len();
    let mut done: Vec<Vec<char>> = Vec::new();
    let mut cur: Vec<char> = Vec::new();
    let mut i: usize = 0;
    assert(s@.take(0) =~= Seq::<char>::empty());
    assert(views(done@).push(cur@) =~= list_entries(s@.take(0)));
    while i < n
        invariant
            n == s@.len(),
            i <= n,
            views(done@).push(cur@) == list_entries(s@.take(i as int)),
        decreases n - i,
    {
        let c = s.get_char(i);
        let ghost before = s@.take(i as int);
        proof {
            assert(s@.take(i + 1).drop_last() =~= before);
            assert(s@.take(i + 1).last() == c);
            lemma_entries_nonempty(before);
        }
        if c == ',' {
            let ghost old_done = done@;
            done.push(cur);
            cur = Vec::new();
            assert(views(done@) =~= views(old_done).push(views(done@).last()));
            assert(views(done@).push(cur@) =~= list_entries(s@.take(i + 1)));
        } else if c == ' ' {
        } else {
            cur.push(c);
            assert(views(done@).push(cur@) =~= list_entries(s@.take(i + 1)));
        }
        i = i + 1;
    }
    let ghost old_done = done@;
    done.push(cur);
    assert(views(done@) =~= views(old_done).push(views(done@).last()));
    assert(s@.take(n as int) =~= s@);
    done
}

/// Reads a comma-separated list of model names ("reduction",
/// "classification", "clustering"); spaces and empty entries are ignored.
pub fn parse_enabled_models(s: &str) -> (r: Result<EnabledModels, ConfigError>)
    ensures
        r == enabled_by(s@),
{
    let es = split_entries(s);
    let ghost v = list_entries(s@);
    let mut reduction = false;
    let mut classification = false;
    let mut clustering = false;
    let mut j: usize = 0;
    while j < es.len()
        invariant
            v == list_entries(s@),
            views(es@) == v,
            j <= es@.len(),
            forall|i: int| 0 <= i < j ==> entry_ok(#[trigger] v[i]),
            reduction == exists|i: int| 0 <= i < j && model_named(#[trigger] v[i]) == Some(ModelKind::Reduction),
            classification == exists|i: int|
                0 <= i < j && model_named(#[trigger] v[i]) == Some(ModelKind::Classification),
            clustering == exists|i: int| 0 <= i < j && model_named(#[trigger] v[i]) == Some(ModelKind::Clustering),
        decreases es@.len() - j,
    {
        assert(v[j as int] == es@[j as int]@);
        let t = &es[j];
        match kind_named(t) {
            Some(ModelKind::Reduction) => reduction = true,
            Some(ModelKind::Classification) => classification = true,
            Some(ModelKind::Clustering) => clustering = true,
            None => {
                if t.len() > 0 {
                    assert(!entry_ok(v[j as int]));
                    return Err(ConfigError::UnknownModel);
                }
            },
        }
        j = j + 1;
    }
    Ok(EnabledModels { reduction, classification, clustering })
}

/// The value of a decimal digit.
pub open spec fn digit_value(c: char) -> int {
    c as int - '0' as int
}

pub open spec fn is_digit(c: char) -> bool {
    '0' <= c && c <= '9'
}

/// The value of the digits `s`, most significant first.
pub open spec fn decimal(s: Seq<char>) -> int
    decreases s.len(),
{
    if s.len() == 0 {
        0
    } else {
        decimal(s.drop_last()) * 10 + digit_value(s.last())
    }
}

/// The count that `s` spells, when it spells one that fits in 64 bits.
pub open spec fn count_of(s: Seq<char>) -> Option<u64> {
    if s.len() > 0 && (forall|i: int| 0 <= i < s.len() ==> is_digit(#[trigger] s[i])) && decimal(s)
        <= u64::MAX {
        Some(decimal(s) as u64)
    } else {
        None
    }
}

proof fn lemma_decimal_grows(s: Seq<char>, k: int)
    requires
        0 <= k <= s.len(),
        forall|i: int| 0 <= i < s.len() ==> is_digit(#[trigger] s[i]),
    ensures
        0 <= decimal(s.take(k)) <= decimal(s),
    decreases s.len() - k,
{
    if k < s.len() {
        lemma_decimal_grows(s, k + 1);
        assert(s.take(k + 1).drop_last() =~= s.take(k));
        assert(is_digit(s[k]));
    } else {
        assert(s.take(k) =~= s);
        lemma_decimal_nonneg(s);
    }
}

proof fn lemma_decimal_nonneg(s: Seq<char>)
    requires
        forall|i: int| 0 <= i < s.len() ==> is_digit(#[trigger] s[i]),
    ensures
        decimal(s) >= 0,
    decreases s.len(),
{
    if s.len() > 0 {
        lemma_decimal_nonneg(s.drop_last());
        assert(is_digit(s[s.len() - 1]));
    }
}

/// Reads a decimal count: one or more digits, nothing else, at most `u64::MAX`.
pub fn parse_count(s: &str) -> (r: Result<u64, ConfigError>)
    ensures
        match count_of(s@) {
            Some(v) => r == Ok::<u64, ConfigError>(v),
            None => r == Err::<u64, ConfigError>(ConfigError::BadNumber),
        },
{
    let n = s.unicode_len();
    if n == 0 {
        return Err(ConfigError::BadNumber);
    }
    let mut i: usize = 0;
    while i < n
        invariant
            n == s@.len(),
            i <= n,
            forall|j: int| 0 <= j < i ==> is_digit(#[trigger] s@[j]),
        decreases n - i,
    {
        let c = s.get_char(i);
        if !('0' <= c && c <= '9') {
            return Err(ConfigError::BadNumber);
        }
        i = i + 1;
    }
    let mut acc: u64 = 0;
    let mut k: usize = 0;
    assert(s@.take(0) =~= Seq::<char>::empty());
    while k < n
        invariant
            n == s@.len(),
            k <= n,
            forall|j: int| 0 <= j < n ==> is_digit(#[trigger] s@[j]),
            acc == decimal(s@.take(k as int)),
        decreases n - k,
    {
        let c = s.get_char(k);
        proof {
            assert(s@.take(k + 1).drop_last() =~= s@.take(k as int));
            assert(is_digit(s@[k as int]));
        }
        let d = (c as u32 - '0' as u32) as u64;
        if acc > (u64::MAX - d) / 10 {
            proof {
                lemma_decimal_grows(s@, k + 1);
                assert(acc * 10 + d > u64::MAX) by (nonlinear_arith)
                    requires
                        acc > (u64::MAX - d) / 10,
                        d <= 9,
                ;
            }
            return Err(ConfigError::BadNumber);
        }
        proof {
            assert(acc * 10 + d <= u64::MAX) by (nonlinear_arith)
                requires
                    acc <= (u64::MAX - d) / 10,
                    d <= 9,
            ;
        }
        acc = acc * 10 + d;
        k = k + 1;
    }
    assert(s@.take(n as int) =~= s@);
    Ok(acc)
}

} // verus!
