use vstd::prelude::*;
use crate::cenum::{BiDir, KlType};
use crate::chan_exception::{ChanError, ErrCode};

verus! {

/// Whether the period is finer than a day.
pub fn kltype_lt_day(ktype: KlType) -> (r: bool)
    ensures
        r == (ktype.spec_level() < KlType::KDay.spec_level()),
{
    ktype.level() < KlType::KDay.level()
}

/// Whether the period is a day or finer.
pub fn kltype_lte_day(ktype: KlType) -> (r: bool)
    ensures
        r == (ktype.spec_level() <= KlType::KDay.spec_level()),
{
    ktype.level() <= KlType::KDay.level()
}

/// Periods listed from the coarsest to the finest, each strictly finer than the one before.
pub open spec fn strictly_coarse_to_fine(s: Seq<KlType>) -> bool {
    forall|i: int| 0 < i < s.len() ==> #[trigger] s[i].spec_level() < s[i - 1].spec_level()
}

/// Checks that a list of periods runs from the coarsest to the finest.
pub fn check_kltype_order(type_list: &[KlType]) -> (r: Result<(), ChanError>)
    ensures
        r.is_ok() <==> strictly_coarse_to_fine(type_list@),
        r matches Err(e) ==> e.errcode == ErrCode::ParaError,
{
    if type_list.len() == 0 {
        return Ok(());
    }
    let mut last_lv: u8 = type_list[0].level();
    let mut i: usize = 1;
    while i < type_list.len()
        invariant
            1 <= i <= type_list.len(),
            last_lv as int == type_list@[i - 1].spec_level(),
            strictly_coarse_to_fine(type_list@.subrange(0, i as int)),
        decreases type_list.len() - i,
    {
        let lv = type_list[i].level();
        if lv >= last_lv {
            assert(!strictly_coarse_to_fine(type_list@)) by {
                assert(!(type_list@[i as int].spec_level() < type_list@[i - 1].spec_level()));
            }
            return Err(ChanError::with_msg("period list must run from coarse to fine", ErrCode::ParaError));
        }
        assert(strictly_coarse_to_fine(type_list@.subrange(0, i + 1))) by {
            let s = type_list@.subrange(0, i + 1);
            assert forall|k: int| 0 < k < s.len() implies #[trigger] s[k].spec_level() < s[k - 1].spec_level() by {
                if k < i {
                    assert(type_list@.subrange(0, i as int)[k] == s[k]);
                    assert(type_list@.subrange(0, i as int)[k - 1] == s[k - 1]);
                }
            }
        }
        last_lv = lv;
        i += 1;
    }
    assert(type_list@.subrange(0, type_list@.len() as int) == type_list@);
    Ok(())
}

pub open spec fn spec_revert_bi_dir(dir: BiDir) -> BiDir {
    match dir {
        BiDir::Up => BiDir::Down,
        BiDir::Down => BiDir::Up,
    }
}

/// The opposite direction.
pub fn revert_bi_dir(dir: BiDir) -> (r: BiDir)
    ensures
        r == spec_revert_bi_dir(dir),
        r != dir,
{
    match dir {
        BiDir::Up => BiDir::Down,
        BiDir::Down => BiDir::Up,
    }
}

/// Whether the ranges [l1, h1] and [l2, h2] overlap; with `equal`, touching counts.
pub open spec fn spec_has_overlap(l1: int, h1: int, l2: int, h2: int, equal: bool) -> bool {
    if equal {
        h2 >= l1 && h1 >= l2
    } else {
        h2 > l1 && h1 > l2
    }
}

pub fn has_overlap(l1: i64, h1: i64, l2: i64, h2: i64, equal: bool) -> (r: bool)
    ensures
        r == spec_has_overlap(l1 as int, h1 as int, l2 as int, h2 as int, equal),
{
    if equal {
        h2 >= l1 && h1 >= l2
    } else {
        h2 > l1 && h1 > l2
    }
}

/// Whether two strings hold the same characters.
pub fn str_equal(a: &str, b: &str) -> (r: bool)
    ensures
        r == (a@ == b@),
{
    let n = a.unicode_len();
    if n != b.unicode_len() {
        return false;
    }
    let mut i: usize = 0;
    while i < n
        invariant
            n == a@.len(),
            n == b@.len(),
            i <= n,
            forall|k: int| 0 <= k < i ==> a@[k] == b@[k],
        decreases n - i,
    {
        if a.get_char(i) != b.get_char(i) {
            return false;
        }
        i += 1;
    }
    assert(a@ =~= b@);
    true
}

pub open spec fn spec_parse_inf(v: Seq<char>) -> Seq<char> {
    if v == "inf"@ || v == "float(\"inf\")"@ {
        "f64::INFINITY"@
    } else if v == "-inf"@ || v == "float(\"-inf\")"@ {
        "f64::NEG_INFINITY"@
    } else {
        v
    }
}

/// Rewrites the spellings of an infinite configuration value into the Rust constant's name.
pub fn parse_inf(v: &str) -> (r: String)
    ensures
        r@ == spec_parse_inf(v@),
{
    if str_equal(v, "inf") || str_equal(v, "float(\"inf\")") {
        String::from_str("f64::INFINITY")
    } else if str_equal(v, "-inf") || str_equal(v, "float(\"-inf\")") {
        String::from_str("f64::NEG_INFINITY")
    } else {
        String::from_str(v)
    }
}

} // verus!
