//! The rotation of log files, as a plan over file names.
//!
//! The current file is `<filename>.<extension>`; a rotated file carries a
//! number behind the extension, and a higher number is an older file. A
//! rotation evicts one file if the directory is full and moves every other
//! file one number up. Nothing here touches a file: the plan says which
//! file to delete and which renames to make, in which order.
//!
//! The files are ordered as texts, not as numbers. `log.log10` therefore
//! stands before `log.log2`, so with more than ten files kept the file
//! evicted is not the oldest one.

use vstd::prelude::*;
use vstd::string::StringExecFns;
use crate::decimal::{append_decimal, decimal, parse_unsigned, unsigned_decimal};
use crate::order::{insert_sorted, lemma_sorted_unique, sorted};
use crate::settings::FileSettings;
use crate::text::{
    after_last, chars_of, contains_text, occurs_in, remove_all, starts_with, text_after_last,
    texts_of, without,
};

verus! {

/// The name of the current file.
pub open spec fn current_name(filename: Seq<char>, extension: Seq<char>) -> Seq<char> {
    filename + seq!['.'] + extension
}

/// Whether a file of this name belongs to the log: the name starts with
/// `filename` and holds `.` and `extension` somewhere.
pub open spec fn is_log_name(name: Seq<char>, filename: Seq<char>, extension: Seq<char>) -> bool {
    filename.is_prefix_of(name) && occurs_in(seq!['.'] + extension, name)
}

/// The names among `names` that belong to the log, in the order of `names`.
pub open spec fn log_names(names: Seq<Seq<char>>, filename: Seq<char>, extension: Seq<char>) -> Seq<
    Seq<char>,
> {
    names.filter(|name: Seq<char>| is_log_name(name, filename, extension))
}

/// Whether `listing` holds the log files among `names`, each as often as
/// `names` does, in sorted order.
pub open spec fn is_listing(
    listing: Seq<Seq<char>>,
    names: Seq<Seq<char>>,
    filename: Seq<char>,
    extension: Seq<char>,
) -> bool {
    sorted(listing) && listing.to_multiset() == log_names(names, filename, extension).to_multiset()
}

/// The log files among `names` in sorted order.
pub open spec fn listing_of(names: Seq<Seq<char>>, filename: Seq<char>, extension: Seq<char>) -> Seq<
    Seq<char>,
> {
    choose|listing: Seq<Seq<char>>| is_listing(listing, names, filename, extension)
}

/// The number that a file name carries: what is left of the text behind its
/// last `.` once every occurrence of the extension is taken out, read as a
/// decimal number that a `u32` holds. A name that carries none counts as 0.
pub open spec fn rotation_number(name: Seq<char>, extension: Seq<char>) -> nat {
    match unsigned_decimal(without(after_last(name, '.'), extension), u32::MAX as int) {
        Some(n) => n as nat,
        None => 0,
    }
}

/// The name that a file gets when it moves one number up.
pub open spec fn next_name(name: Seq<char>, filename: Seq<char>, extension: Seq<char>) -> Seq<
    char,
> {
    current_name(filename, extension) + decimal(rotation_number(name, extension) + 1)
}

/// One renaming of a file within the log directory.
#[derive(Clone, Debug)]
pub struct Rename {
    pub from: String,
    pub to: String,
}

/// `Rename` over plain characters.
pub struct RenameView {
    pub from: Seq<char>,
    pub to: Seq<char>,
}

impl View for Rename {
    type V = RenameView;

    open spec fn view(&self) -> RenameView {
        RenameView { from: self.from@, to: self.to@ }
    }
}

/// The renamings of `v`, each over plain characters.
pub open spec fn renames_of(v: Seq<Rename>) -> Seq<RenameView> {
    Seq::new(v.len(), |i: int| v[i]@)
}

/// What one rotation does to the directory.
#[derive(Clone, Debug)]
pub struct RotationPlan {
    /// The file to delete first, if any.
    pub evict: Option<String>,
    /// The renamings to make after that, in this order.
    pub renames: Vec<Rename>,
}

/// `RotationPlan` over plain characters.
pub struct PlanView {
    pub evict: Option<Seq<char>>,
    pub renames: Seq<RenameView>,
}

impl View for RotationPlan {
    type V = PlanView;

    open spec fn view(&self) -> PlanView {
        PlanView {
            evict: match self.evict {
                Some(name) => Some(name@),
                None => None,
            },
            renames: renames_of(self.renames@),
        }
    }
}

/// The renamings that move each file of `logs` one number up, the last file
/// of `logs` first.
pub open spec fn renumbering(logs: Seq<Seq<char>>, filename: Seq<char>, extension: Seq<char>) -> Seq<
    RenameView,
> {
    Seq::new(
        logs.len(),
        |i: int|
            RenameView {
                from: logs[logs.len() - 1 - i],
                to: next_name(logs[logs.len() - 1 - i], filename, extension),
            },
    )
}

/// The file that a rotation evicts: the last of the listing, where the
/// listing holds at least `capacity` files.
pub open spec fn evicted(listing: Seq<Seq<char>>, capacity: nat) -> Option<Seq<char>> {
    if listing.len() >= capacity && listing.len() > 0 {
        Some(listing.last())
    } else {
        None
    }
}

/// The files that a rotation keeps.
pub open spec fn kept(listing: Seq<Seq<char>>, capacity: nat) -> Seq<Seq<char>> {
    if listing.len() >= capacity && listing.len() > 0 {
        listing.drop_last()
    } else {
        listing
    }
}

/// The plan of one rotation over the sorted listing of the log files.
pub open spec fn rotation_plan(
    listing: Seq<Seq<char>>,
    capacity: nat,
    filename: Seq<char>,
    extension: Seq<char>,
) -> PlanView {
    PlanView {
        evict: evicted(listing, capacity),
        renames: renumbering(kept(listing, capacity), filename, extension),
    }
}

/// Whether a file of this name belongs to the log of `settings`.
pub fn is_log_file(name: &str, settings: &FileSettings) -> (r: bool)
    ensures
        r == is_log_name(name@, settings@.filename, settings@.file_extension),
{
    let v = chars_of(name);
    let base = chars_of(settings.filename().as_str());
    if !starts_with(&v, &base) {
        return false;
    }
    let mut dotted = String::new();
    proof {
        reveal_strlit(".");
    }
    dotted.append(".");
    dotted.append(settings.file_extension().as_str());
    assert(dotted@ =~= seq!['.'] + settings@.file_extension);
    let pat = chars_of(dotted.as_str());
    contains_text(&v, &pat)
}

/// Picks the log files out of the names of a directory and sorts them.
pub fn get_log_files(names: &Vec<String>, settings: &FileSettings) -> (r: Vec<String>)
    ensures
        texts_of(r@) == listing_of(texts_of(names@), settings@.filename, settings@.file_extension),
        is_listing(
            texts_of(r@),
            texts_of(names@),
            settings@.filename,
            settings@.file_extension,
        ),
{
    let ghost all = texts_of(names@);
    let ghost filename = settings@.filename;
    let ghost extension = settings@.file_extension;
    let ghost pred = |name: Seq<char>| is_log_name(name, filename, extension);
    let mut result: Vec<String> = Vec::new();
    let mut i: usize = 0;
    proof {
        assert(all.take(0) =~= Seq::<Seq<char>>::empty());
        assert(all.take(0).filter(pred) =~= Seq::<Seq<char>>::empty()) by {
            reveal(Seq::filter);
        }
        assert(texts_of(result@) =~= Seq::<Seq<char>>::empty());
    }
    while i < names.len()
        invariant
            i <= names.len(),
            all == texts_of(names@),
            filename == settings@.filename,
            extension == settings@.file_extension,
            pred == |name: Seq<char>| is_log_name(name, filename, extension),
            sorted(texts_of(result@)),
            texts_of(result@).to_multiset() == all.take(i as int).filter(pred).to_multiset(),
        decreases names.len() - i,
    {
        let name = &names[i];
        proof {
            assert(all.take(i + 1) =~= all.take(i as int).push(name@));
            all.take(i as int).lemma_filter_push(name@, pred);
            vstd::seq_lib::to_multiset_build(all.take(i as int).filter(pred), name@);
        }
        if is_log_file(name.as_str(), settings) {
            insert_sorted(&mut result, name.clone());
        }
        i += 1;
    }
    proof {
        assert(all.take(i as int) =~= all);
        let found = texts_of(result@);
        assert(is_listing(found, all, filename, extension));
        let chosen = listing_of(all, filename, extension);
        assert(is_listing(chosen, all, filename, extension));
        lemma_sorted_unique(found, chosen);
    }
    result
}

/// The number that a file name carries.
pub fn number_of(name: &str, settings: &FileSettings) -> (r: u32)
    ensures
        r == rotation_number(name@, settings@.file_extension),
{
    let last = text_after_last(name, '.');
    let digits = remove_all(last.as_str(), settings.file_extension().as_str());
    match parse_unsigned(digits.as_str(), 0xffff_ffff) {
        Some(n) => n as u32,
        None => 0,
    }
}

/// The name that a file gets when it moves one number up.
pub fn renamed(name: &str, settings: &FileSettings) -> (r: String)
    ensures
        r@ == next_name(name@, settings@.filename, settings@.file_extension),
{
    let number: u64 = number_of(name, settings) as u64 + 1;
    let mut out = settings.filename().clone();
    proof {
        reveal_strlit(".");
    }
    out.append(".");
    out.append(settings.file_extension().as_str());
    assert(out@ =~= current_name(settings@.filename, settings@.file_extension));
    append_decimal(&mut out, number);
    out
}

/// The renamings that move each file of `logs` one number up, the last file
/// of `logs` first.
pub fn reorder_filenames(settings: &FileSettings, logs: &Vec<String>) -> (r: Vec<Rename>)
    ensures
        renames_of(r@) == renumbering(
            texts_of(logs@),
            settings@.filename,
            settings@.file_extension,
        ),
{
    let mut result: Vec<Rename> = Vec::new();
    let n = logs.len();
    let mut done: usize = 0;
    let ghost want = renumbering(texts_of(logs@), settings@.filename, settings@.file_extension);
    while done < n
        invariant
            done <= n,
            n == logs.len(),
            want == renumbering(texts_of(logs@), settings@.filename, settings@.file_extension),
            result@.len() == done,
            forall|k: int| 0 <= k < done ==> (#[trigger] result@[k])@ == want[k],
        decreases n - done,
    {
        let name = &logs[n - 1 - done];
        let to = renamed(name.as_str(), settings);
        result.push(Rename { from: name.clone(), to });
        done += 1;
    }
    assert(renames_of(result@) =~= want);
    result
}

/// Takes the file to evict, the last one, out of the listing, where the
/// listing holds at least `capacity` files.
pub fn delete_oldest_file(logs: &mut Vec<String>, capacity: usize) -> (r: Option<String>)
    ensures
        match r {
            Some(name) => Some(name@),
            None => None,
        } == evicted(texts_of(old(logs)@), capacity as nat),
        texts_of(final(logs)@) == kept(texts_of(old(logs)@), capacity as nat),
{
    if logs.len() >= capacity && logs.len() > 0 {
        let r = logs.pop();
        assert(texts_of(logs@) =~= texts_of(old(logs)@).drop_last());
        r
    } else {
        None
    }
}

/// Plans one rotation over the names found in the log directory.
pub fn plan_rotation(names: &Vec<String>, settings: &FileSettings) -> (r: RotationPlan)
    ensures
        r@ == rotation_plan(
            listing_of(texts_of(names@), settings@.filename, settings@.file_extension),
            settings@.capacity,
            settings@.filename,
            settings@.file_extension,
        ),
{
    let mut logs = get_log_files(names, settings);
    let evict = delete_oldest_file(&mut logs, settings.capacity());
    let renames = reorder_filenames(settings, &logs);
    RotationPlan { evict, renames }
}

} // verus!
