//! Naming and listing helpers for the notes directory.
//!
//! The embedding program reads the directory and the note files; this
//! module holds the decisions: picking a fresh file name for a new note,
//! spotting blank lines, and truncating a line for display.

use vstd::prelude::*;
use vstd::seq_lib::seq_to_set_is_finite;
use vstd::set_lib::lemma_len_subset;
use vstd::string::StrSliceExecFns;

use crate::text::{contains_str, is_space_spec, str_chars};
use crate::util::{dec_rep, dec_string, lemma_dec_rep_inj};

verus! {

/// The note file name for a date stamp and a counter: `<base>_<idx>.md`.
pub open spec fn spec_file_name(base: Seq<char>, idx: nat) -> Seq<char> {
    base + "_"@ + dec_rep(idx) + ".md"@
}

/// File names built from the same base and distinct counters differ.
proof fn lemma_file_name_inj(base: Seq<char>, i: nat, j: nat)
    requires
        spec_file_name(base, i) == spec_file_name(base, j),
    ensures
        i == j,
{
    let si = spec_file_name(base, i);
    let sj = spec_file_name(base, j);
    let off = base.len() + "_"@.len();
    reveal_strlit("_");
    reveal_strlit(".md");
    assert(si.len() == base.len() + 1 + dec_rep(i).len() + 3);
    assert(sj.len() == base.len() + 1 + dec_rep(j).len() + 3);
    assert(dec_rep(i).len() == dec_rep(j).len());
    assert(forall|k: int|
        0 <= k < dec_rep(i).len() ==> si[off + k] == dec_rep(i)[k] && sj[off + k] == dec_rep(
            j,
        )[k]);
    assert(dec_rep(i) =~= dec_rep(j));
    lemma_dec_rep_inj(i, j);
}

/// When `m` distinct file names all stand in `names`, `names` has at
/// least `m` entries.
proof fn lemma_fresh_name_exists(base: Seq<char>, names: Seq<Seq<char>>, m: nat)
    requires
        forall|j: nat| j < m ==> names.contains(#[trigger] spec_file_name(base, j)),
    ensures
        m <= names.len(),
{
    broadcast use seq_to_set_is_finite;

    let img = Seq::new(m, |j: int| spec_file_name(base, j as nat));
    assert(forall|x: int, y: int|
        0 <= x < m && 0 <= y < m && x != y ==> img[x] != img[y]) by {
        assert forall|x: int, y: int|
            0 <= x < m && 0 <= y < m && x != y implies img[x] != img[y] by {
            if img[x] == img[y] {
                lemma_file_name_inj(base, x as nat, y as nat);
            }
        }
    }
    assert(img.no_duplicates());
    img.unique_seq_to_set();
    names.lemma_cardinality_of_set();
    assert(img.to_set().subset_of(names.to_set())) by {
        assert forall|x: Seq<char>| img.to_set().contains(x) implies names.to_set().contains(
            x,
        ) by {
            let k = choose|k: int| 0 <= k < img.len() && img[k] == x;
            assert(names.contains(spec_file_name(base, k as nat)));
        }
    }
    lemma_len_subset(img.to_set(), names.to_set());
}

/// Relies on chrono's `Local::now` and its `%Y-%m-%d` format: the local
/// date as a `year-month-day` string.  The result depends on the clock, so
/// nothing further is assumed of it.
#[verifier::external_body]
fn today_stamp() -> (r: String) {
    chrono::Local::now().format("%Y-%m-%d").to_string()
}

/// The file name `<base>_<idx>.md` for the least counter `idx` whose name
/// does not yet stand in `existing`.
pub fn fresh_file_name(base: &str, existing: &Vec<String>) -> (r: String)
    requires
        existing.len() < usize::MAX,
    ensures
        !existing.deep_view().contains(r@),
        exists|i: nat|
            r@ == spec_file_name(base@, i) && forall|j: nat|
                j < i ==> existing.deep_view().contains(#[trigger] spec_file_name(base@, j)),
{
    let n = existing.len();
    let mut idx: usize = 0;
    loop
        invariant
            idx <= n + 1,
            n == existing.len(),
            n < usize::MAX,
            forall|j: nat|
                j < idx ==> existing.deep_view().contains(#[trigger] spec_file_name(base@, j)),
        decreases n + 1 - idx,
    {
        proof {
            if idx > n {
                lemma_fresh_name_exists(base@, existing.deep_view(), idx as nat);
            }
        }
        let mut name = base.to_owned();
        name.append("_");
        let counter = dec_string(idx);
        name.append(counter.as_str());
        name.append(".md");
        if !contains_str(existing, name.as_str()) {
            proof {
                assert(name@ == spec_file_name(base@, idx as nat));
            }
            return name;
        }
        idx += 1;
    }
}

/// A fresh note file name for today: `<today>_<idx>.md` for the least
/// counter whose name does not yet stand in `existing` (the names already
/// in the notes directory).
pub fn new_file_name(existing: &Vec<String>) -> (r: String)
    requires
        existing.len() < usize::MAX,
    ensures
        !existing.deep_view().contains(r@),
{
    let base = today_stamp();
    fresh_file_name(base.as_str(), existing)
}

/// Is every character of `line` blank?
pub fn is_blank(line: &str) -> (r: bool)
    ensures
        r == forall|i: int| 0 <= i < line@.len() ==> is_space_spec(line@[i]),
{
    let cs = str_chars(line);
    let n = cs.len();
    let mut i: usize = 0;
    while i < n
        invariant
            i <= n,
            n == cs.len(),
            cs@ == line@,
            forall|j: int| 0 <= j < i ==> is_space_spec(line@[j]),
        decreases n - i,
    {
        if !crate::text::is_space(cs[i]) {
            return false;
        }
        i += 1;
    }
    true
}

/// `line`, shortened to `max_len` characters: a longer line is cut to
/// `max_len - 3` characters with `...` appended.
pub fn truncate_line(line: &str, max_len: usize) -> (r: String)
    requires
        max_len >= 3,
    ensures
        r@ == if line@.len() <= max_len {
            line@
        } else {
            line@.subrange(0, max_len - 3) + "..."@
        },
{
    let n = line.unicode_len();
    if n <= max_len {
        line.to_owned()
    } else {
        let mut r = line.substring_char(0, max_len - 3).to_owned();
        r.append("...");
        r
    }
}

} // verus!
