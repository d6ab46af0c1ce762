//! Telling whether the official program runs. It uses the same USB connection.

use crate::text::{
    chars_of, find, find_chars, lemma_find, lossy_text, lower_chars, lower_text, occurs_at,
    same_ignoring_case, utf8_text_lossy,
};
use vstd::prelude::*;
use vstd::slice::slice_subrange;

verus! {

/// The code unit is the first half of a surrogate pair.
pub open spec fn leads(unit: u16) -> bool {
    0xd800 <= unit <= 0xdbff
}

/// The code unit is the second half of a surrogate pair.
pub open spec fn trails(unit: u16) -> bool {
    0xdc00 <= unit <= 0xdfff
}

/// The text that UTF-16 code units encode, with a replacement character for each half of a
/// surrogate pair that stands alone.
pub open spec fn lossy_utf16(units: Seq<u16>) -> Seq<char>
    decreases units.len(),
{
    if units.len() == 0 {
        seq![]
    } else if !leads(units[0]) && !trails(units[0]) {
        seq![units[0] as char] + lossy_utf16(units.skip(1))
    } else if leads(units[0]) && units.len() > 1 && trails(units[1]) {
        let code = 0x10000 + (units[0] - 0xd800) * 0x400 + (units[1] - 0xdc00);
        seq![code as char] + lossy_utf16(units.skip(2))
    } else {
        seq!['\u{fffd}'] + lossy_utf16(units.skip(1))
    }
}

/// `String::from_utf16_lossy`: the text that the code units encode, with a replacement character
/// for each half of a surrogate pair that stands alone.
#[verifier::external_body]
fn utf16_text_lossy(units: &[u16]) -> (r: String)
    ensures
        r@ == lossy_utf16(units@),
{
    String::from_utf16_lossy(units)
}

/// Where the text in a fixed-size field ends: at the first zero from `i` on, or with the field.
pub open spec fn text_end(units: Seq<u16>, i: int) -> int
    decreases units.len() - i,
{
    if 0 <= i < units.len() && units[i] != 0 {
        text_end(units, i + 1)
    } else {
        i
    }
}

/// The file name in a process entry is `exe_name`, upper and lower case aside.
pub open spec fn is_entry_of(exe_file: Seq<u16>, exe_name: Seq<char>) -> bool {
    lower_text(lossy_utf16(exe_file.take(text_end(exe_file, 0)))) == lower_text(exe_name)
}

/// Whether a process entry, given by its file name field, is one of the program `exe_name`.
pub fn process_matches(exe_file: &[u16], exe_name: &str) -> (r: bool)
    ensures
        r == is_entry_of(exe_file@, exe_name@),
{
    let mut len: usize = 0;
    while len < exe_file.len() && exe_file[len] != 0
        invariant
            len <= exe_file@.len(),
            text_end(exe_file@, 0) == text_end(exe_file@, len as int),
        decreases exe_file@.len() - len,
    {
        len += 1;
    }
    let field: &[u16] = slice_subrange(exe_file, 0, len);
    assert(field@ =~= exe_file@.take(len as int));
    let name: String = utf16_text_lossy(field);
    same_ignoring_case(name.as_str(), exe_name)
}

/// The file name of the official program.
pub open spec fn official_program() -> Seq<char> {
    "ROG STRIX LC & SLC IV Series.exe"@
}

/// Whether a process entry, given by its file name field, is one of the official program.
pub fn is_official_entry(exe_file: &[u16]) -> (r: bool)
    ensures
        r == is_entry_of(exe_file@, official_program()),
{
    process_matches(exe_file, "ROG STRIX LC & SLC IV Series.exe")
}

/// One of the process entries is one of the official program.
pub open spec fn lists_official_entry(entries: Seq<Vec<u16>>) -> bool {
    exists|i: int|
        0 <= i < entries.len() && is_entry_of(#[trigger] entries[i]@, official_program())
}

/// Whether the official program runs: some process entry is one of it. Without a list of entries it
/// counts as not running.
pub fn official_app_runs(entries: Option<&Vec<Vec<u16>>>) -> (r: bool)
    ensures
        r == match entries {
            Some(list) => lists_official_entry(list@),
            None => false,
        },
{
    match entries {
        Some(list) => {
            let mut found: bool = false;
            let mut i: usize = 0;
            while i < list.len() && !found
                invariant
                    i <= list@.len(),
                    found ==> lists_official_entry(list@),
                    !found ==> forall|j: int|
                        0 <= j < i ==> !is_entry_of(#[trigger] list@[j]@, official_program()),
                decreases list@.len() - i,
            {
                found = is_official_entry(list[i].as_slice());
                i += 1;
            }
            found
        },
        None => false,
    }
}

/// A process list, as `tasklist` prints it, names the official program in upper or lower case.
pub open spec fn lists_official_app(stdout: Seq<u8>) -> bool {
    find(lower_text(lossy_text(stdout)), "rog strix lc"@, 0) is Some
}

/// The complaint that the official program runs.
#[derive(Debug, Clone, Copy, PartialEq, Eq, Structural)]
pub struct OfficialAppRuns;

impl OfficialAppRuns {
    /// The complaint in words.
    pub fn message(&self) -> (r: String)
        ensures
            r@
                == "Quit \"ROG STRIX LC & SLC IV Series\" first. It uses the same USB connection, so the two programs would mix up each other's replies."@,
    {
        "Quit \"ROG STRIX LC & SLC IV Series\" first. It uses the same USB connection, so the two programs would mix up each other's replies.".to_owned()
    }
}

/// Makes sure that the official program is not in the process list that `tasklist` printed.
pub fn ensure_official_app_is_closed(stdout: &[u8]) -> (r: Result<(), OfficialAppRuns>)
    ensures
        r is Err <==> lists_official_app(stdout@),
{
    let listing: String = utf8_text_lossy(stdout);
    let lower: Vec<char> = lower_chars(chars_of(listing.as_str()).as_slice());
    let name: Vec<char> = chars_of("rog strix lc");
    match find_chars(lower.as_slice(), name.as_slice(), 0) {
        Some(_) => Err(OfficialAppRuns),
        None => Ok(()),
    }
}

proof fn lemma_plain_units(units: Seq<u16>)
    requires
        forall|i: int| 0 <= i < units.len() ==> !(0xd800 <= #[trigger] units[i] <= 0xdfff),
    ensures
        lossy_utf16(units).len() == units.len(),
        forall|i: int|
            0 <= i < units.len() ==> #[trigger] lossy_utf16(units)[i] as int == units[i],
    decreases units.len(),
{
    if units.len() > 0 {
        let rest = units.skip(1);
        assert(!(0xd800 <= units[0] <= 0xdfff));
        assert forall|i: int| 0 <= i < rest.len() implies !(0xd800 <= #[trigger] rest[i]
            <= 0xdfff) by {
            assert(rest[i] == units[i + 1]);
        }
        lemma_plain_units(rest);
        assert forall|i: int| 0 <= i < units.len() implies #[trigger] lossy_utf16(units)[i] as int
            == units[i] by {
            if i > 0 {
                assert(lossy_utf16(units)[i] == lossy_utf16(rest)[i - 1]);
                assert(rest[i - 1] == units[i]);
            }
        }
    }
}

proof fn lemma_text_end(units: Seq<u16>, i: int, e: int)
    requires
        0 <= i <= e <= units.len(),
        forall|k: int| i <= k < e ==> #[trigger] units[k] != 0,
        e < units.len() ==> units[e] == 0,
    ensures
        text_end(units, i) == e,
    decreases e - i,
{
    if i < e {
        assert(units[i] != 0);
        lemma_text_end(units, i + 1, e);
    }
}

proof fn lemma_no_character_is_a_surrogate(c: char)
    ensures
        !(0xd800 <= c as int <= 0xdfff),
{
}

/// A process is the program whose file name stands in its entry, up to the first zero or the end
/// of the field, upper and lower case of ASCII letters aside. The official program is the one with
/// its own file name.
pub proof fn law_entry_is_named_up_to_the_zero(
    exe_file: &[u16],
    exe_name: &str,
    text: Seq<char>,
    r: bool,
    official: bool,
)
    requires
        call_ensures(process_matches, (exe_file, exe_name), r),
        call_ensures(is_official_entry, (exe_file,), official),
        text.len() <= exe_file@.len(),
        forall|i: int|
            0 <= i < text.len() ==> 0 < (#[trigger] text[i]) as int <= 0xffff && exe_file@[i]
                == text[i] as int,
        text.len() < exe_file@.len() ==> exe_file@[text.len() as int] == 0,
    ensures
        r <==> lower_text(text) == lower_text(exe_name@),
        official <==> lower_text(text) == lower_text("ROG STRIX LC & SLC IV Series.exe"@),
{
    let n = text.len() as int;
    assert forall|k: int| 0 <= k < n implies #[trigger] exe_file@[k] != 0 by {
        assert(0 < text[k] as int);
    }
    lemma_text_end(exe_file@, 0, n);
    let units = exe_file@.take(n);
    assert forall|i: int| 0 <= i < units.len() implies !(0xd800 <= #[trigger] units[i]
        <= 0xdfff) by {
        assert(units[i] == text[i] as int);
        lemma_no_character_is_a_surrogate(text[i]);
    }
    lemma_plain_units(units);
    assert forall|i: int| 0 <= i < n implies lossy_utf16(units)[i] == text[i] by {
        assert(lossy_utf16(units)[i] as int == units[i]);
        assert(units[i] == text[i] as int);
    }
    assert(lossy_utf16(units) =~= text);
}

/// Surrogate pairs stand for the characters beyond 16 bits, and a half that stands alone for the
/// replacement character.
pub proof fn law_surrogates_come_in_pairs(high: u16, low: u16, lone: u16, rest: Seq<u16>)
    requires
        0xd800 <= high <= 0xdbff,
        0xdc00 <= low <= 0xdfff,
        0xd800 <= lone <= 0xdfff,
        lone <= 0xdbff ==> rest.len() == 0 || !(0xdc00 <= rest[0] <= 0xdfff),
    ensures
        lossy_utf16(seq![high, low] + rest).len() == 1 + lossy_utf16(rest).len(),
        lossy_utf16(seq![high, low] + rest)[0] as int == 0x10000 + (high - 0xd800) * 1024 + (low
            - 0xdc00),
        lossy_utf16(seq![high, low] + rest).skip(1) == lossy_utf16(rest),
        lossy_utf16(seq![lone] + rest) == seq!['\u{fffd}'] + lossy_utf16(rest),
{
    let a = seq![high, low] + rest;
    let b = seq![lone] + rest;
    assert(a[0] == high && a[1] == low);
    assert(a.skip(2) =~= rest);
    assert(lossy_utf16(a).skip(1) =~= lossy_utf16(rest));
    assert(b[0] == lone);
    assert(b.skip(1) =~= rest);
    if rest.len() > 0 {
        assert(b[1] == rest[0]);
    }
}

/// The official program runs where one of the entries is its own, and where there is no list it
/// counts as not running.
pub proof fn law_official_program_is_one_of_the_entries(
    list: &Vec<Vec<u16>>,
    i: int,
    entry: &[u16],
    r: bool,
    q: bool,
    none: bool,
)
    requires
        call_ensures(official_app_runs, (Some(list),), r),
        call_ensures(official_app_runs, (None,), none),
        call_ensures(is_official_entry, (entry,), q),
        0 <= i < list@.len(),
        entry@ == list@[i]@,
    ensures
        q ==> r,
        list@.len() == 1 ==> r == q,
        !none,
{
    if r && list@.len() == 1 {
        let k = choose|k: int|
            0 <= k < list@.len() && is_entry_of(#[trigger] list@[k]@, official_program());
        assert(k == i);
    }
    if q {
        assert(is_entry_of(list@[i]@, official_program()));
    }
}

/// A process list is refused where `rog strix lc` stands anywhere in it, in upper or lower case.
pub proof fn law_process_list_is_searched(
    stdout: &[u8],
    before: Seq<char>,
    name: Seq<char>,
    after: Seq<char>,
    r: Result<(), OfficialAppRuns>,
)
    requires
        call_ensures(ensure_official_app_is_closed, (stdout,), r),
    ensures
        lossy_text(stdout@) == before + name + after && lower_text(name) == "rog strix lc"@
            ==> r is Err,
        r is Err ==> exists|i: int|
            0 <= i && i + 12 <= lossy_text(stdout@).len() && lower_text(
                #[trigger] lossy_text(stdout@).subrange(i, i + 12),
            ) == "rog strix lc"@,
{
    reveal_strlit("rog strix lc");
    let text = lossy_text(stdout@);
    let needle = "rog strix lc"@;
    lemma_find(lower_text(text), needle, 0);
    if text == before + name + after && lower_text(name) == needle {
        let n = before.len() as int;
        assert(lower_text(name).len() == name.len());
        assert(lower_text(text).subrange(n, n + 12) =~= lower_text(name));
        assert(occurs_at(lower_text(text), needle, n));
    }
    if let Some(i) = find(lower_text(text), needle, 0) {
        assert(lower_text(text.subrange(i, i + 12)) =~= lower_text(text).subrange(i, i + 12));
    }
}

/// What is said where the official program runs.
pub proof fn law_official_program_in_words(error: &OfficialAppRuns, r: String)
    requires
        call_ensures(OfficialAppRuns::message, (error,), r),
    ensures
        r@
            == "Quit \"ROG STRIX LC & SLC IV Series\" first. It uses the same USB connection, so the two programs would mix up each other's replies."@,
{
}

} // verus!
