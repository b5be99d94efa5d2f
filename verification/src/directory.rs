//! What a rotation does to the log directory, over a model of the
//! directory: the set of its file names.

use vstd::prelude::*;
use vstd::multiset::Multiset;
use crate::decimal::{all_digits, decimal, is_digit, lemma_decimal_reads_back, unsigned_decimal};
use crate::order::{
    lemma_common_prefix_is, lemma_lex_total, lemma_sorted_unique, lex_le, lex_less, sorted,
};
use crate::rotation::{
    current_name, evicted, is_listing, is_log_name, kept, listing_of, log_names, next_name,
    renumbering, rotation_number, rotation_plan, PlanView, RenameView,
};
use crate::text::{after_last, lemma_after_last_is, without};

verus! {

/// The name of the rotated file with the number `i`.
pub open spec fn numbered_name(filename: Seq<char>, extension: Seq<char>, i: nat) -> Seq<char> {
    current_name(filename, extension) + decimal(i)
}

/// Whether the number of a rotated file can be read back from its name: the
/// extension holds no `.`, and it is empty or holds a character that is no
/// digit.
pub open spec fn plain_extension(extension: Seq<char>) -> bool {
    &&& !extension.contains('.')
    &&& extension.len() > 0 ==> !all_digits(extension)
}

/// A text in which `pat` stands nowhere loses nothing.
pub proof fn lemma_without_absent(s: Seq<char>, pat: Seq<char>)
    requires
        forall|k: int| 0 <= k && k + pat.len() <= s.len() ==> #[trigger] s.subrange(k, k + pat.len()) != pat,
    ensures
        without(s, pat) == s,
    decreases s.len(),
{
    if pat.len() == 0 || s.len() < pat.len() {
    } else {
        assert(s.subrange(0int, 0int + pat.len()) != pat);
        let t = s.skip(1);
        assert forall|k: int| 0 <= k && k + pat.len() <= t.len() implies #[trigger] t.subrange(
            k,
            k + pat.len(),
        ) != pat by {
            assert(t.subrange(k, k + pat.len()) =~= s.subrange(k + 1, k + 1 + pat.len()));
        }
        lemma_without_absent(t, pat);
        assert(seq![s[0]] + t =~= s);
    }
}

/// Behind a plain extension a run of digits is what is left once the
/// extension is taken out.
pub proof fn lemma_without_extension(extension: Seq<char>, digits: Seq<char>)
    requires
        plain_extension(extension),
        all_digits(digits),
    ensures
        without(extension + digits, extension) == digits,
{
    let s = extension + digits;
    if extension.len() == 0 {
        assert(s =~= digits);
    } else {
        assert(s.subrange(0, extension.len() as int) =~= extension);
        assert(s.skip(extension.len() as int) =~= digits);
        let j = choose|j: int| 0 <= j < extension.len() && !is_digit(#[trigger] extension[j]);
        assert forall|k: int| 0 <= k && k + extension.len() <= digits.len() implies #[trigger] digits.subrange(
            k,
            k + extension.len(),
        ) != extension by {
            let window = digits.subrange(k, k + extension.len());
            assert(window[j] == digits[k + j]);
            assert(is_digit(digits[k + j]));
        }
        lemma_without_absent(digits, extension);
    }
}

/// The text behind the last `.` of a file name made of the current name and
/// a run of digits is the extension with the digits.
pub proof fn lemma_after_last_dot(filename: Seq<char>, extension: Seq<char>, digits: Seq<char>)
    requires
        !extension.contains('.'),
        all_digits(digits),
    ensures
        after_last(current_name(filename, extension) + digits, '.') == extension + digits,
{
    let s = current_name(filename, extension) + digits;
    let k = filename.len() + 1;
    assert(s[k - 1] == '.');
    assert forall|i: int| k <= i < s.len() implies s[i] != '.' by {
        if i < k + extension.len() {
            assert(s[i] == extension[i - k]);
            assert(extension.contains(extension[i - k]));
        } else {
            assert(s[i] == digits[i - k - extension.len()]);
            assert(is_digit(digits[i - k - extension.len()]));
        }
    }
    lemma_after_last_is(s, '.', k as int);
    assert(s.skip(k as int) =~= extension + digits);
}

/// The current file carries no number, and the file numbered `i` carries
/// `i`.
pub proof fn lemma_rotation_numbers(filename: Seq<char>, extension: Seq<char>, i: nat)
    requires
        plain_extension(extension),
        1 <= i <= u32::MAX,
    ensures
        rotation_number(current_name(filename, extension), extension) == 0,
        rotation_number(numbered_name(filename, extension, i), extension) == i,
        next_name(current_name(filename, extension), filename, extension) == numbered_name(
            filename,
            extension,
            1,
        ),
        next_name(numbered_name(filename, extension, i), filename, extension) == numbered_name(
            filename,
            extension,
            i + 1,
        ),
{
    let none = Seq::<char>::empty();
    let current = current_name(filename, extension);
    assert(current + none =~= current);
    lemma_after_last_dot(filename, extension, none);
    lemma_without_extension(extension, none);
    assert(extension + none =~= extension);
    lemma_decimal_reads_back(i);
    lemma_after_last_dot(filename, extension, decimal(i));
    lemma_without_extension(extension, decimal(i));
    assert(is_digit(decimal(i)[0]));
    assert(unsigned_decimal(decimal(i), u32::MAX as int) == Some(i as int));
}

/// The current file and every numbered file belong to the log.
pub proof fn lemma_names_belong(filename: Seq<char>, extension: Seq<char>, i: nat)
    ensures
        is_log_name(current_name(filename, extension), filename, extension),
        is_log_name(numbered_name(filename, extension, i), filename, extension),
{
    let pat = seq!['.'] + extension;
    let current = current_name(filename, extension);
    let name = numbered_name(filename, extension, i);
    let k = filename.len() as int;
    assert(current.subrange(k, k + pat.len()) =~= pat);
    assert(name.subrange(k, k + pat.len()) =~= pat);
    assert(filename =~= current.subrange(0, k));
    assert(filename =~= name.subrange(0, k));
}

/// The current file followed by the files numbered 1 to `m`.
pub open spec fn file_list(filename: Seq<char>, extension: Seq<char>, m: nat) -> Seq<Seq<char>> {
    Seq::new(
        m + 1,
        |i: int|
            if i == 0 {
                current_name(filename, extension)
            } else {
                numbered_name(filename, extension, i as nat)
            },
    )
}

/// The files numbered 1 to `m`.
pub open spec fn numbered_list(filename: Seq<char>, extension: Seq<char>, m: nat) -> Seq<
    Seq<char>,
> {
    Seq::new(m as nat, |i: int| numbered_name(filename, extension, (i + 1) as nat))
}

/// Whether the files of the log in the directory `dir` are exactly those of
/// `list`.
pub open spec fn holds_files(
    dir: Set<Seq<char>>,
    filename: Seq<char>,
    extension: Seq<char>,
    list: Seq<Seq<char>>,
) -> bool {
    forall|name: Seq<char>|
        #![trigger dir.contains(name)]
        #![trigger list.contains(name)]
        (dir.contains(name) && is_log_name(name, filename, extension)) <==> list.contains(name)
}

/// Files with different numbers have different names, and none has the
/// name of the current file.
pub proof fn lemma_names_differ(filename: Seq<char>, extension: Seq<char>, i: nat, j: nat)
    ensures
        numbered_name(filename, extension, i) != current_name(filename, extension),
        i != j ==> numbered_name(filename, extension, i) != numbered_name(filename, extension, j),
{
    let current = current_name(filename, extension);
    lemma_decimal_reads_back(i);
    lemma_decimal_reads_back(j);
    if numbered_name(filename, extension, i) == numbered_name(filename, extension, j) {
        assert(decimal(i) =~= numbered_name(filename, extension, i).skip(current.len() as int));
        assert(decimal(j) =~= numbered_name(filename, extension, j).skip(current.len() as int));
    }
}

/// Up to the number 9 the files stand in the order of their age: the
/// current file first, then the numbered files by their numbers.
pub proof fn lemma_file_list_sorted(filename: Seq<char>, extension: Seq<char>, m: nat)
    requires
        m <= 9,
    ensures
        sorted(file_list(filename, extension, m)),
        file_list(filename, extension, m).no_duplicates(),
{
    let list = file_list(filename, extension, m);
    let current = current_name(filename, extension);
    let k = current.len() as int;
    assert forall|i: int, j: int| 0 <= i < j < list.len() implies lex_less(list[i], list[j]) by {
        let a = list[i];
        let b = list[j];
        assert(decimal(j as nat) =~= seq![crate::decimal::digit_char(j)]);
        if i == 0 {
            lemma_common_prefix_is(a, b, k);
        } else {
            assert(decimal(i as nat) =~= seq![crate::decimal::digit_char(i)]);
            assert(a[k] == crate::decimal::digit_char(i));
            assert(b[k] == crate::decimal::digit_char(j));
            assert forall|x: int| 0 <= x < k implies a[x] == b[x] by {
                assert(a[x] == current[x]);
                assert(b[x] == current[x]);
            }
            lemma_common_prefix_is(a, b, k);
        }
    }
    assert forall|i: int, j: int| 0 <= i < j < list.len() implies lex_le(
        #[trigger] list[i],
        #[trigger] list[j],
    ) by {
        assert(lex_less(list[i], list[j]));
        lemma_lex_total(list[i], list[j]);
    }
    assert forall|i: int, j: int| 0 <= i < list.len() && 0 <= j < list.len() && i != j implies list[i]
        != list[j] by {
        if i < j {
            assert(lex_less(list[i], list[j]));
            lemma_lex_total(list[i], list[j]);
        } else {
            assert(lex_less(list[j], list[i]));
            lemma_lex_total(list[j], list[i]);
        }
    }
}

/// How often a name stands among the names picked out of `s`.
pub proof fn lemma_filter_count(
    s: Seq<Seq<char>>,
    pred: spec_fn(Seq<char>) -> bool,
    x: Seq<char>,
)
    ensures
        s.filter(pred).to_multiset().count(x) == if pred(x) {
            s.to_multiset().count(x)
        } else {
            0
        },
    decreases s.len(),
{
    broadcast use vstd::multiset::group_multiset_axioms;

    if s.len() == 0 {
        assert(s.filter(pred) =~= Seq::<Seq<char>>::empty()) by {
            reveal(Seq::filter);
        }
        assert(s.to_multiset() =~= Multiset::<Seq<char>>::empty()) by {
            s.to_multiset_ensures();
        }
        assert(s.filter(pred).to_multiset() =~= Multiset::<Seq<char>>::empty()) by {
            s.filter(pred).to_multiset_ensures();
        }
    } else {
        let t = s.drop_last();
        let last = s.last();
        lemma_filter_count(t, pred, x);
        assert(t.push(last) =~= s);
        t.lemma_filter_push(last, pred);
        vstd::seq_lib::to_multiset_build(t, last);
        vstd::seq_lib::to_multiset_build(t.filter(pred), last);
    }
}

/// A directory that holds the current file, the files numbered 1 to `m` and
/// no other file of the log is listed as these files in the order of their
/// age, in whatever order the directory gives its names.
pub proof fn lemma_listing_of_files(
    dir: Set<Seq<char>>,
    names: Seq<Seq<char>>,
    filename: Seq<char>,
    extension: Seq<char>,
    m: nat,
)
    requires
        m <= 9,
        holds_files(dir, filename, extension, file_list(filename, extension, m)),
        names.no_duplicates(),
        names.to_set() == dir,
    ensures
        listing_of(names, filename, extension) == file_list(filename, extension, m),
{
    broadcast use vstd::multiset::group_multiset_axioms;

    let list = file_list(filename, extension, m);
    let pred = |name: Seq<char>| is_log_name(name, filename, extension);
    let found = log_names(names, filename, extension);
    lemma_file_list_sorted(filename, extension, m);
    names.lemma_multiset_has_no_duplicates();
    list.lemma_multiset_has_no_duplicates();
    assert forall|x: Seq<char>| found.to_multiset().count(x) == list.to_multiset().count(x) by {
        lemma_filter_count(names, pred, x);
        vstd::seq_lib::to_multiset_contains(names, x);
        vstd::seq_lib::to_multiset_contains(list, x);
        assert(names.contains(x) <==> dir.contains(x));
        if list.contains(x) {
            assert(dir.contains(x) && is_log_name(x, filename, extension));
        }
        if names.contains(x) && pred(x) {
            assert(dir.contains(x));
            assert(list.contains(x));
        }
    }
    assert(found.to_multiset() =~= list.to_multiset());
    assert(is_listing(list, names, filename, extension));
    lemma_sorted_unique(listing_of(names, filename, extension), list);
}

/// The directory after one renaming. A file that takes the name of
/// another replaces it; renaming a file that is not there changes nothing.
pub open spec fn after_rename(dir: Set<Seq<char>>, rename: RenameView) -> Set<Seq<char>> {
    if dir.contains(rename.from) {
        dir.remove(rename.from).insert(rename.to)
    } else {
        dir
    }
}

/// The directory after the renamings, made in their order.
pub open spec fn after_renames(dir: Set<Seq<char>>, renames: Seq<RenameView>) -> Set<Seq<char>>
    decreases renames.len(),
{
    if renames.len() == 0 {
        dir
    } else {
        after_renames(after_rename(dir, renames[0]), renames.drop_first())
    }
}

/// The directory after a rotation: the evicted file is gone, then the
/// renamings are made.
pub open spec fn after_plan(dir: Set<Seq<char>>, plan: PlanView) -> Set<Seq<char>> {
    after_renames(
        match plan.evict {
            Some(name) => dir.remove(name),
            None => dir,
        },
        plan.renames,
    )
}

/// The names of the files numbered 1 to `m`.
pub open spec fn numbered_set(filename: Seq<char>, extension: Seq<char>, m: nat) -> Set<Seq<char>>
    decreases m,
{
    if m == 0 {
        Set::empty()
    } else {
        numbered_set(filename, extension, (m - 1) as nat).insert(
            numbered_name(filename, extension, m),
        )
    }
}

/// `numbered_set` holds the names of the files numbered 1 to `m`, and no
/// other name.
pub proof fn lemma_numbered_set(filename: Seq<char>, extension: Seq<char>, m: nat)
    ensures
        !numbered_set(filename, extension, m).contains(current_name(filename, extension)),
        forall|j: nat|
            numbered_set(filename, extension, m).contains(
                #[trigger] numbered_name(filename, extension, j),
            ) <==> 1 <= j <= m,
        forall|name: Seq<char>|
            numbered_set(filename, extension, m).contains(name) <==> #[trigger] numbered_list(
                filename,
                extension,
                m,
            ).contains(name),
        forall|name: Seq<char>|
            numbered_set(filename, extension, m).contains(name) || name == current_name(
                filename,
                extension,
            ) <==> #[trigger] file_list(filename, extension, m).contains(name),
        forall|name: Seq<char>|
            numbered_set(filename, extension, m).contains(name) ==> is_log_name(
                name,
                filename,
                extension,
            ),
    decreases m,
{
    let set = numbered_set(filename, extension, m);
    let list = numbered_list(filename, extension, m);
    let files = file_list(filename, extension, m);
    let current = current_name(filename, extension);
    if m == 0 {
        assert(files[0] == current);
        assert forall|name: Seq<char>| #[trigger] files.contains(name) implies name == current by {
            let i = choose|i: int| 0 <= i < files.len() && files[i] == name;
        }
    } else {
        let below = (m - 1) as nat;
        lemma_numbered_set(filename, extension, below);
        let top = numbered_name(filename, extension, m);
        lemma_names_differ(filename, extension, m, m);
        lemma_names_belong(filename, extension, m);
        assert forall|j: nat|
            set.contains(#[trigger] numbered_name(filename, extension, j)) <==> 1 <= j <= m by {
            lemma_names_differ(filename, extension, j, m);
        }
        let list_below = numbered_list(filename, extension, below);
        let files_below = file_list(filename, extension, below);
        assert forall|name: Seq<char>| set.contains(name) <==> #[trigger] list.contains(name) by {
            if list.contains(name) {
                let i = choose|i: int| 0 <= i < list.len() && list[i] == name;
                if i < m - 1 {
                    assert(list_below[i] == name);
                    assert(list_below.contains(name));
                }
            }
            if set.contains(name) {
                if name == top {
                    assert(list[m - 1] == name);
                } else {
                    assert(list_below.contains(name));
                    let i = choose|i: int| 0 <= i < list_below.len() && list_below[i] == name;
                    assert(list[i] == name);
                }
            }
        }
        assert forall|name: Seq<char>|
            set.contains(name) || name == current <==> #[trigger] files.contains(name) by {
            if files.contains(name) {
                let i = choose|i: int| 0 <= i < files.len() && files[i] == name;
                if i < m {
                    assert(files_below[i] == name);
                    assert(files_below.contains(name));
                }
            }
            if name == current {
                assert(files[0] == name);
            } else if set.contains(name) {
                if name == top {
                    assert(files[m as int] == name);
                } else {
                    assert(files_below.contains(name));
                    let i = choose|i: int| 0 <= i < files_below.len() && files_below[i] == name;
                    assert(files[i] == name);
                }
            }
        }
    }
}

/// Moving the current file and the files numbered 1 to `k` one number up,
/// the highest number first, leaves the files numbered 1 to `k + 1`; what
/// else stands in the directory stays.
pub proof fn lemma_renumbering_moves_up(
    base: Set<Seq<char>>,
    filename: Seq<char>,
    extension: Seq<char>,
    k: nat,
)
    requires
        plain_extension(extension),
        k < u32::MAX,
        !base.contains(current_name(filename, extension)),
        forall|j: nat| j <= k + 1 ==> !base.contains(#[trigger] numbered_name(filename, extension, j)),
    ensures
        after_renames(
            base + numbered_set(filename, extension, k).insert(current_name(filename, extension)),
            renumbering(file_list(filename, extension, k), filename, extension),
        ) == base + numbered_set(filename, extension, k + 1),
    decreases k,
{
    let current = current_name(filename, extension);
    let files = file_list(filename, extension, k);
    let renames = renumbering(files, filename, extension);
    let start = base + numbered_set(filename, extension, k).insert(current);
    lemma_numbered_set(filename, extension, k);
    lemma_numbered_set(filename, extension, k + 1);
    lemma_rotation_numbers(filename, extension, 1);
    if k == 0 {
        assert(renames[0] == RenameView { from: current, to: numbered_name(filename, extension, 1) });
        assert(renames.drop_first() =~= Seq::<RenameView>::empty());
        assert(start.remove(current).insert(numbered_name(filename, extension, 1)) =~= base
            + numbered_set(filename, extension, 1));
        let moved = after_rename(start, renames[0]);
        assert(after_renames(moved, renames.drop_first()) == moved);
        assert(after_renames(start, renames) == moved);
    } else {
        let below = (k - 1) as nat;
        let top = numbered_name(filename, extension, k);
        let next = numbered_name(filename, extension, k + 1);
        lemma_rotation_numbers(filename, extension, k);
        lemma_numbered_set(filename, extension, below);
        assert(files[k as int] == top);
        assert(renames[0] == RenameView { from: top, to: next });
        assert(renames.drop_first() =~= renumbering(
            file_list(filename, extension, below),
            filename,
            extension,
        ));
        let wider = base.insert(next);
        assert forall|j: nat| j <= k implies !wider.contains(
            #[trigger] numbered_name(filename, extension, j),
        ) by {
            lemma_names_differ(filename, extension, j, k + 1);
        }
        lemma_names_differ(filename, extension, k + 1, k + 1);
        lemma_names_differ(filename, extension, k, k);
        assert(start.contains(top));
        assert(start.remove(top).insert(next) =~= wider + numbered_set(
            filename,
            extension,
            below,
        ).insert(current));
        lemma_renumbering_moves_up(wider, filename, extension, below);
        let moved = after_rename(start, renames[0]);
        assert(moved == wider + numbered_set(filename, extension, below).insert(current));
        assert(after_renames(start, renames) == after_renames(moved, renames.drop_first()));
        assert(wider + numbered_set(filename, extension, k) =~= base + numbered_set(
            filename,
            extension,
            k + 1,
        ));
    }
}

/// The number of the oldest file after a rotation of the current file and
/// the files numbered 1 to `m`: with room left, every file moves up and the
/// highest number is `m + 1`; in a full directory the oldest file is
/// evicted first and the highest number stays `m`.
pub open spec fn top_after(m: nat, capacity: nat) -> nat {
    if m + 1 >= capacity {
        m
    } else {
        m + 1
    }
}

/// One rotation of a directory that holds the current file, the files
/// numbered 1 to `m` (at most 9) and no other file of the log, read in
/// whatever order.
///
/// The rotation evicts the oldest file if the directory is full, and none
/// otherwise. After it the files of the log are exactly those numbered 1 to
/// `top_after(m, capacity)`; the last renaming is that of the current file
/// to the number 1, unless the current file was itself evicted; and every
/// other file of the directory is where it was.
pub proof fn lemma_rotation_moves_files_up(
    dir: Set<Seq<char>>,
    names: Seq<Seq<char>>,
    filename: Seq<char>,
    extension: Seq<char>,
    capacity: nat,
    m: nat,
)
    requires
        plain_extension(extension),
        m <= 9,
        holds_files(dir, filename, extension, file_list(filename, extension, m)),
        names.no_duplicates(),
        names.to_set() == dir,
    ensures
        ({
            let plan = rotation_plan(
                listing_of(names, filename, extension),
                capacity,
                filename,
                extension,
            );
            let after = after_plan(dir, plan);
            &&& plan.evict == if m + 1 >= capacity {
                Some(file_list(filename, extension, m)[m as int])
            } else {
                None
            }
            &&& holds_files(
                after,
                filename,
                extension,
                numbered_list(filename, extension, top_after(m, capacity)),
            )
            &&& forall|name: Seq<char>|
                !is_log_name(name, filename, extension) ==> (after.contains(name) <==> dir.contains(
                    name,
                ))
            &&& top_after(m, capacity) >= 1 ==> plan.renames.len() > 0 && plan.renames.last()
                == (RenameView {
                from: current_name(filename, extension),
                to: numbered_name(filename, extension, 1),
            })
        }),
{
    let files = file_list(filename, extension, m);
    let current = current_name(filename, extension);
    lemma_listing_of_files(dir, names, filename, extension, m);
    let plan = rotation_plan(listing_of(names, filename, extension), capacity, filename, extension);
    let after = after_plan(dir, plan);
    let base = Set::new(|name: Seq<char>| dir.contains(name) && !is_log_name(name, filename, extension));
    let top = top_after(m, capacity);
    lemma_numbered_set(filename, extension, m);
    lemma_numbered_set(filename, extension, top);
    lemma_rotation_numbers(filename, extension, 1);
    assert forall|j: nat| !base.contains(#[trigger] numbered_name(filename, extension, j)) by {
        lemma_names_belong(filename, extension, j);
    }
    lemma_names_belong(filename, extension, 0);
    assert(!base.contains(current));
    assert(dir =~= base + numbered_set(filename, extension, m).insert(current)) by {
        assert forall|name: Seq<char>| dir.contains(name) <==> (base + numbered_set(
            filename,
            extension,
            m,
        ).insert(current)).contains(name) by {
            if dir.contains(name) && is_log_name(name, filename, extension) {
                assert(files.contains(name));
            }
            if numbered_set(filename, extension, m).contains(name) || name == current {
                assert(files.contains(name));
            }
        }
    }
    if m + 1 >= capacity {
        let last = files[m as int];
        assert(files.last() == last);
        if m == 0 {
            assert(files.drop_last() =~= Seq::<Seq<char>>::empty());
            assert(plan.renames =~= Seq::<RenameView>::empty());
            assert(after == dir.remove(current));
            assert(after =~= base + numbered_set(filename, extension, 0));
        } else {
            let below = (m - 1) as nat;
            lemma_numbered_set(filename, extension, below);
            assert(files.drop_last() =~= file_list(filename, extension, below));
            lemma_names_differ(filename, extension, m, m);
            assert(dir.remove(last) =~= base + numbered_set(filename, extension, below).insert(
                current,
            ));
            lemma_renumbering_moves_up(base, filename, extension, below);
            let kept_files = file_list(filename, extension, below);
            assert(plan.renames.last() == RenameView {
                from: kept_files[0],
                to: next_name(kept_files[0], filename, extension),
            });
        }
    } else {
        lemma_renumbering_moves_up(base, filename, extension, m);
        assert(plan.renames.last() == RenameView {
            from: files[0],
            to: next_name(files[0], filename, extension),
        });
    }
    assert(after == base + numbered_set(filename, extension, top));
    let list = numbered_list(filename, extension, top);
    assert forall|name: Seq<char>|
        #![trigger after.contains(name)]
        #![trigger list.contains(name)]
        (after.contains(name) && is_log_name(name, filename, extension)) <==> list.contains(
            name,
        ) by {
        if list.contains(name) {
            assert(numbered_set(filename, extension, top).contains(name));
        }
    }
}

/// Whether `after` is the directory `before` one rollover later: the
/// current file stands in the directory again, the names are read in some
/// order, and the rotation planned from them is carried out.
pub open spec fn is_rollover(
    before: Set<Seq<char>>,
    after: Set<Seq<char>>,
    filename: Seq<char>,
    extension: Seq<char>,
    capacity: nat,
) -> bool {
    exists|names: Seq<Seq<char>>|
        {
            &&& names.no_duplicates()
            &&& names.to_set() == before.insert(current_name(filename, extension))
            &&& after == after_plan(
                before.insert(current_name(filename, extension)),
                #[trigger] rotation_plan(
                    listing_of(names, filename, extension),
                    capacity,
                    filename,
                    extension,
                ),
            )
        }
}

/// The number of the oldest file after `n` rollovers that started in a
/// directory without any file of the log.
pub open spec fn top_after_rollovers(n: nat, capacity: nat) -> nat {
    if n + 1 <= capacity {
        n
    } else {
        (capacity - 1) as nat
    }
}

/// Rollovers keep the numbering dense. Where at most ten files are kept and
/// the directory holds no file of the log at first, then after `n`
/// rollovers the files of the log are exactly those numbered 1 to `n`, or
/// to `capacity - 1` once that many rollovers have passed. With the current
/// file that the next write makes, these are `capacity` files from the
/// rollover of that number on, and different ones.
pub proof fn lemma_rollovers_keep_numbering(
    dirs: Seq<Set<Seq<char>>>,
    filename: Seq<char>,
    extension: Seq<char>,
    capacity: nat,
    n: nat,
)
    requires
        plain_extension(extension),
        1 <= capacity <= 10,
        n < dirs.len(),
        holds_files(dirs[0], filename, extension, Seq::empty()),
        forall|k: int|
            0 <= k < n ==> is_rollover(#[trigger] dirs[k], dirs[k + 1], filename, extension, capacity),
    ensures
        holds_files(
            dirs[n as int],
            filename,
            extension,
            numbered_list(filename, extension, top_after_rollovers(n, capacity)),
        ),
        holds_files(
            dirs[n as int].insert(current_name(filename, extension)),
            filename,
            extension,
            file_list(filename, extension, top_after_rollovers(n, capacity)),
        ),
        file_list(filename, extension, top_after_rollovers(n, capacity)).no_duplicates(),
        file_list(filename, extension, top_after_rollovers(n, capacity)).len()
            == top_after_rollovers(n, capacity) + 1,
        n + 1 >= capacity ==> file_list(
            filename,
            extension,
            top_after_rollovers(n, capacity),
        ).len() == capacity,
    decreases n,
{
    let current = current_name(filename, extension);
    let top = top_after_rollovers(n, capacity);
    lemma_file_list_sorted(filename, extension, top);
    if n == 0 {
        assert(numbered_list(filename, extension, 0) =~= Seq::<Seq<char>>::empty());
    } else {
        let before = dirs[n - 1];
        let m = top_after_rollovers((n - 1) as nat, capacity);
        lemma_rollovers_keep_numbering(dirs, filename, extension, capacity, (n - 1) as nat);
        assert(is_rollover(dirs[n - 1], dirs[n - 1 + 1], filename, extension, capacity));
        let names = choose|names: Seq<Seq<char>>|
            {
                &&& names.no_duplicates()
                &&& names.to_set() == before.insert(current)
                &&& dirs[n as int] == after_plan(
                    before.insert(current),
                    #[trigger] rotation_plan(
                        listing_of(names, filename, extension),
                        capacity,
                        filename,
                        extension,
                    ),
                )
            };
        lemma_rotation_moves_files_up(
            before.insert(current),
            names,
            filename,
            extension,
            capacity,
            m,
        );
        assert(top_after(m, capacity) == top);
    }
    let dir = dirs[n as int];
    let list = numbered_list(filename, extension, top);
    let files = file_list(filename, extension, top);
    lemma_numbered_set(filename, extension, top);
    lemma_names_belong(filename, extension, 0);
    assert forall|name: Seq<char>|
        #![trigger dir.insert(current).contains(name)]
        #![trigger files.contains(name)]
        (dir.insert(current).contains(name) && is_log_name(name, filename, extension))
            <==> files.contains(name) by {
        if files.contains(name) && name != current {
            assert(numbered_set(filename, extension, top).contains(name));
            assert(list.contains(name));
            assert(dir.contains(name));
        }
        if dir.contains(name) && is_log_name(name, filename, extension) {
            assert(list.contains(name));
            assert(numbered_set(filename, extension, top).contains(name));
        }
    }
}

} // verus!
