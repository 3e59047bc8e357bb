//! The five category scanners.
//!
//! The surrounding program walks the filesystem and hands each scanner
//! plain listings: one `FileEntry` per path found, or one measured size
//! per root directory. A root that does not exist, or that cannot be
//! read, simply arrives as an empty listing or `None` — a scan never
//! fails as a whole. Everything after that point is computed here: the
//! guard is consulted, the category's inclusion threshold applied, the
//! survivors sorted by descending size and capped.

use vstd::prelude::*;

use crate::guard::{is_protected, spec_is_protected};
use crate::pathutil::{
    contains_chars, contains_seq, extension, extension_of, is_prefix_of, joined, lowered,
    path_join, starts_with, str_to_chars, to_lowercase, to_uppercase, uppered,
};
use crate::platform::{spec_separator, Platform};
use crate::tree::{sum_sizes, CategoryNode, JunkCategory, JunkItem};

verus! {

/// One filesystem entry, as the surrounding program found it: its path,
/// its size in bytes, whether it is a regular file, and its modification
/// time in seconds since the epoch.
pub struct FileEntry {
    pub path: Vec<char>,
    pub size: u64,
    pub is_file: bool,
    pub modified: u64,
}

/// What one item looks like to a reader: path, size and type label.
pub type ItemModel = (Seq<char>, u64, Seq<char>);

/// The model of one item.
pub open spec fn item_model(it: JunkItem) -> ItemModel {
    (it.path@, it.size, it.junk_type@)
}

/// The models of a run of items.
pub open spec fn item_models(s: Seq<JunkItem>) -> Seq<ItemModel> {
    s.map_values(|it: JunkItem| item_model(it))
}

/// Sorted by size, largest first.
pub open spec fn sorted_desc(s: Seq<ItemModel>) -> bool {
    forall|i: int, j: int| 0 <= i < j < s.len() ==> s[i].1 >= s[j].1
}

/// The bytes a run of item models weighs.
pub open spec fn sum_model_sizes(s: Seq<ItemModel>) -> int
    decreases s.len(),
{
    if s.len() == 0 {
        0
    } else {
        sum_model_sizes(s.drop_last()) + s.last().1
    }
}

/// Taking one model out takes exactly its weight out.
pub proof fn lemma_sum_model_remove(s: Seq<ItemModel>, j: int)
    requires
        0 <= j < s.len(),
    ensures
        sum_model_sizes(s) == sum_model_sizes(s.remove(j)) + s[j].1,
    decreases s.len(),
{
    if j == s.len() - 1 {
        assert(s.remove(j) =~= s.drop_last());
    } else {
        lemma_sum_model_remove(s.drop_last(), j);
        assert(s.remove(j).drop_last() =~= s.drop_last().remove(j));
        assert(s.remove(j).last() == s.last());
    }
}

/// Two runs holding the same models weigh the same.
pub proof fn lemma_sum_model_permutation(a: Seq<ItemModel>, b: Seq<ItemModel>)
    requires
        a.to_multiset() == b.to_multiset(),
    ensures
        sum_model_sizes(a) == sum_model_sizes(b),
    decreases a.len(),
{
    broadcast use vstd::seq_lib::group_to_multiset_ensures;

    if a.len() == 0 {
        assert(b.to_multiset().len() == 0);
        assert(b.len() == 0);
    } else {
        let x = a.last();
        assert(a.to_multiset().count(x) > 0);
        assert(b.to_multiset().count(x) > 0);
        assert(b.contains(x));
        let j = choose|j: int| 0 <= j < b.len() && b[j] == x;
        assert(a.drop_last() =~= a.remove(a.len() - 1));
        assert(a.remove(a.len() - 1).to_multiset() =~= b.remove(j).to_multiset());
        lemma_sum_model_permutation(a.drop_last(), b.remove(j));
        lemma_sum_model_remove(b, j);
    }
}

/// A prefix of a run of models never weighs more than the whole.
pub proof fn lemma_sum_model_prefix(s: Seq<ItemModel>, n: int)
    requires
        0 <= n <= s.len(),
    ensures
        sum_model_sizes(s.subrange(0, n)) <= sum_model_sizes(s),
    decreases s.len() - n,
{
    if n == s.len() {
        assert(s.subrange(0, n) =~= s);
    } else {
        lemma_sum_model_prefix(s, n + 1);
        assert(s.subrange(0, n + 1).drop_last() =~= s.subrange(0, n));
    }
}

/// A run of items weighs what its models weigh.
pub proof fn lemma_sum_models_eq(s: Seq<JunkItem>)
    ensures
        sum_model_sizes(item_models(s)) == sum_sizes(s),
    decreases s.len(),
{
    if s.len() > 0 {
        lemma_sum_models_eq(s.drop_last());
        assert(item_models(s).drop_last() =~= item_models(s.drop_last()));
    }
}

/// Sorts items by size, largest first, keeping exactly the same items.
fn sort_items_desc(items: Vec<JunkItem>) -> (r: Vec<JunkItem>)
    ensures
        sorted_desc(item_models(r@)),
        item_models(r@).to_multiset() == item_models(items@).to_multiset(),
{
    broadcast use vstd::seq_lib::to_multiset_build;
    broadcast use vstd::seq_lib::to_multiset_insert;

    let mut src = items;
    let ghost orig = src@;
    let ghost n = orig.len() as int;
    let mut out: Vec<JunkItem> = Vec::new();
    proof {
        assert(orig.subrange(0, n) =~= orig);
        assert(item_models(out@) =~= Seq::<ItemModel>::empty());
        assert(item_models(orig.subrange(0, 0)) =~= Seq::<ItemModel>::empty());
    }
    while src.len() > 0
        invariant
            src@.len() <= n,
            src@ == orig.subrange(n - src@.len(), n),
            n == orig.len(),
            sorted_desc(item_models(out@)),
            item_models(out@).to_multiset() == item_models(
                orig.subrange(0, n - src@.len()),
            ).to_multiset(),
        decreases src@.len(),
    {
        let ghost k = n - src@.len();
        let it = src.remove(0);
        proof {
            assert(it == orig[k]);
            assert(src@ =~= orig.subrange(k + 1, n));
        }
        let mut idx: usize = 0;
        while idx < out.len() && out[idx].size >= it.size
            invariant
                idx <= out@.len(),
                forall|j: int| 0 <= j < idx ==> (#[trigger] out@[j]).size >= it.size,
            decreases out@.len() - idx,
        {
            idx += 1;
        }
        let ghost pre = out@;
        out.insert(idx, it);
        proof {
            pre.insert_ensures(idx as int, it);
            assert forall|j: int| idx <= j < pre.len() implies (#[trigger] pre[j]).size
                <= it.size by {
                assert(pre[idx as int].size < it.size);
                if j > idx {
                    assert(item_models(pre)[idx as int].1 >= item_models(pre)[j].1);
                }
            }
            assert(sorted_desc(item_models(out@))) by {
                assert forall|a: int, b: int|
                    0 <= a < b < out@.len() implies item_models(out@)[a].1 >= item_models(
                    out@,
                )[b].1 by {
                    if b < idx {
                        assert(out@[a] == pre[a] && out@[b] == pre[b]);
                        assert(item_models(pre)[a].1 >= item_models(pre)[b].1);
                    } else if a < idx && b == idx {
                        assert(out@[a] == pre[a] && out@[b] == it);
                    } else if a < idx && b > idx {
                        assert(out@[a] == pre[a] && out@[b] == pre[b - 1]);
                        assert(item_models(pre)[a].1 >= item_models(pre)[b - 1].1);
                    } else if a == idx {
                        assert(out@[a] == it && out@[b] == pre[b - 1]);
                        assert(pre[b - 1].size <= it.size);
                    } else {
                        assert(out@[a] == pre[a - 1] && out@[b] == pre[b - 1]);
                        assert(item_models(pre)[a - 1].1 >= item_models(pre)[b - 1].1);
                    }
                }
            }
            assert(item_models(out@) =~= item_models(pre).insert(idx as int, item_model(it)));
            assert(orig.subrange(0, k + 1) =~= orig.subrange(0, k).push(orig[k]));
            assert(item_models(orig.subrange(0, k).push(orig[k])) =~= item_models(
                orig.subrange(0, k),
            ).push(item_model(orig[k])));
            assert(item_models(out@).to_multiset() =~= item_models(
                orig.subrange(0, k + 1),
            ).to_multiset());
        }
    }
    proof {
        assert(orig.subrange(0, n) =~= orig);
    }
    out
}

/// The items kept when filling a node whose running total must stay a
/// `u64`: each item in turn, skipping one whose size would overflow the
/// total so far. With sizes that fit — every real listing — nothing is
/// skipped.
pub open spec fn cap_keep(s: Seq<JunkItem>, tot: int) -> Seq<JunkItem>
    decreases s.len(),
{
    if s.len() == 0 {
        Seq::empty()
    } else if tot + s.first().size <= u64::MAX {
        seq![s.first()] + cap_keep(s.drop_first(), tot + s.first().size)
    } else {
        cap_keep(s.drop_first(), tot)
    }
}

/// Filling keeps at most what it was given.
pub proof fn lemma_cap_keep_len(s: Seq<JunkItem>, tot: int)
    ensures
        cap_keep(s, tot).len() <= s.len(),
    decreases s.len(),
{
    if s.len() > 0 {
        lemma_cap_keep_len(s.drop_first(), tot + s.first().size);
        lemma_cap_keep_len(s.drop_first(), tot);
    }
}

/// When the whole run fits, nothing is skipped.
pub proof fn lemma_cap_keep_all(s: Seq<JunkItem>, tot: int)
    requires
        tot + sum_sizes(s) <= u64::MAX,
        tot >= 0,
    ensures
        cap_keep(s, tot) == s,
    decreases s.len(),
{
    if s.len() > 0 {
        crate::tree::lemma_sum_sizes_nonneg(s.drop_first());
        assert(s =~= s.drop_last().push(s.last()));
        assert(sum_sizes(s) == sum_sizes(s.drop_last()) + s.last().size);
        lemma_sum_first(s);
        lemma_cap_keep_all(s.drop_first(), tot + s.first().size);
        assert(seq![s.first()] + s.drop_first() =~= s);
    }
}

/// Whatever the fill keeps was among what it was given.
proof fn lemma_cap_keep_submultiset(s: Seq<JunkItem>, tot: int)
    ensures
        item_models(cap_keep(s, tot)).to_multiset().subset_of(item_models(s).to_multiset()),
    decreases s.len(),
{
    broadcast use vstd::seq_lib::lemma_multiset_commutative;
    broadcast use vstd::multiset::group_multiset_axioms;
    broadcast use vstd::seq_lib::group_to_multiset_ensures;

    if s.len() == 0 {
        assert(cap_keep(s, tot) =~= Seq::<JunkItem>::empty());
        assert(item_models(cap_keep(s, tot)) =~= Seq::<ItemModel>::empty());
        assert forall|x: ItemModel|
            item_models(cap_keep(s, tot)).to_multiset().count(x) <= item_models(
                s,
            ).to_multiset().count(x) by {
            assert(item_models(cap_keep(s, tot)).to_multiset().len() == 0);
        }
    } else {
        let rest = s.drop_first();
        let m0 = seq![item_model(s.first())];
        assert(s =~= seq![s.first()] + rest);
        assert(item_models(seq![s.first()] + rest) =~= m0 + item_models(rest));
        assert(item_models(s).to_multiset() == m0.to_multiset().add(
            item_models(rest).to_multiset(),
        ));
        if tot + s.first().size <= u64::MAX {
            lemma_cap_keep_submultiset(rest, tot + s.first().size);
            let kept_rest = cap_keep(rest, tot + s.first().size);
            assert(item_models(seq![s.first()] + kept_rest) =~= m0 + item_models(kept_rest));
            assert(item_models(cap_keep(s, tot)).to_multiset() == m0.to_multiset().add(
                item_models(kept_rest).to_multiset(),
            ));
            assert forall|x: ItemModel|
                item_models(cap_keep(s, tot)).to_multiset().count(x) <= item_models(
                    s,
                ).to_multiset().count(x) by {
                assert(item_models(kept_rest).to_multiset().count(x) <= item_models(
                    rest,
                ).to_multiset().count(x));
            }
        } else {
            lemma_cap_keep_submultiset(rest, tot);
            assert forall|x: ItemModel|
                item_models(cap_keep(s, tot)).to_multiset().count(x) <= item_models(
                    s,
                ).to_multiset().count(x) by {
                assert(item_models(rest).to_multiset().count(x) <= item_models(
                    s,
                ).to_multiset().count(x));
            }
        }
    }
}

/// A prefix of a run holds no model more often than the whole run.
proof fn lemma_take_submultiset(s: Seq<ItemModel>, n: int)
    requires
        0 <= n <= s.len(),
    ensures
        s.take(n).to_multiset().subset_of(s.to_multiset()),
{
    broadcast use vstd::seq_lib::lemma_multiset_commutative;
    broadcast use vstd::multiset::group_multiset_axioms;

    assert(s =~= s.take(n) + s.skip(n));
    assert(s.to_multiset() == s.take(n).to_multiset().add(s.skip(n).to_multiset()));
}

/// Sorts the collected items by descending size, keeps at most `cap` of
/// them (the largest), and fills a node whose running total is exactly
/// the sum of the kept sizes. Whenever the collected sizes sum to a
/// representable total — every real listing does — the node holds
/// exactly the top of a descending ordering of the collected items.
#[verifier::rlimit(40)]
fn assemble_node(category: JunkCategory, collected: Vec<JunkItem>, cap: Option<usize>) -> (r:
    CategoryNode)
    ensures
        r.category == category,
        r.expanded == false,
        r.wf(),
        sorted_desc(item_models(r.items@)),
        match cap {
            Some(c) => r.items@.len() <= c,
            None => true,
        },
        item_models(r.items@).to_multiset().subset_of(item_models(collected@).to_multiset()),
        exists|s: Seq<ItemModel>|
            #![auto]
            {
                &&& sorted_desc(s)
                &&& s.to_multiset() == item_models(collected@).to_multiset()
                &&& (sum_model_sizes(item_models(collected@)) <= u64::MAX ==> item_models(r.items@)
                    == s.take(
                    match cap {
                        Some(c) => vstd::math::min(c as int, s.len() as int),
                        None => s.len() as int,
                    },
                ))
            },
{
    let ghost cmodels = item_models(collected@);
    let mut sorted = sort_items_desc(collected);
    let ghost smodels = item_models(sorted@);
    let ghost cap_n: int = match cap {
        Some(c) => vstd::math::min(c as int, smodels.len() as int),
        None => smodels.len() as int,
    };
    match cap {
        Some(c) => {
            sorted.truncate(c);
        },
        None => {},
    }
    proof {
        assert(item_models(sorted@) =~= smodels.take(cap_n));
        assert(sorted_desc(item_models(sorted@)));
        if sum_model_sizes(cmodels) <= u64::MAX {
            lemma_sum_model_permutation(smodels, cmodels);
            lemma_sum_model_prefix(smodels, cap_n);
            lemma_sum_models_eq(sorted@);
            assert(sum_sizes(sorted@) <= u64::MAX);
            lemma_cap_keep_all(sorted@, 0);
        }
    }

    let mut its = sorted;
    let ghost q = its@;
    let ghost m = q.len() as int;
    let mut keep: Vec<JunkItem> = Vec::new();
    let mut tot: u64 = 0;
    proof {
        assert(q.subrange(0, m) =~= q);
        assert(keep@ + cap_keep(q, 0) =~= cap_keep(q, 0));
        assert(item_models(keep@) =~= Seq::<ItemModel>::empty());
    }
    while its.len() > 0
        invariant
            its@.len() <= m,
            its@ == q.subrange(m - its@.len(), m),
            m == q.len(),
            sorted_desc(item_models(q)),
            cap_keep(q, 0) == keep@ + cap_keep(its@, tot as int),
            tot == sum_sizes(keep@),
            sorted_desc(item_models(keep@)),
            forall|a: int, b: int|
                0 <= a < keep@.len() && 0 <= b < its@.len() ==> (#[trigger] keep@[a]).size
                    >= (#[trigger] its@[b]).size,
        decreases its@.len(),
    {
        let ghost k = m - its@.len();
        let ghost pre_its = its@;
        let it = its.remove(0);
        proof {
            assert(it == pre_its.first());
            assert(its@ =~= pre_its.drop_first());
            assert forall|x: int, y: int|
                0 <= x < y < pre_its.len() implies (#[trigger] pre_its[x]).size
                >= (#[trigger] pre_its[y]).size by {
                assert(item_models(q)[k + x].1 >= item_models(q)[k + y].1);
            }
        }
        if it.size <= u64::MAX - tot {
            let ghost pre_keep = keep@;
            proof {
                assert(cap_keep(pre_its, tot as int) == seq![it] + cap_keep(
                    its@,
                    tot + it.size,
                ));
                assert(pre_keep + (seq![it] + cap_keep(its@, tot + it.size)) =~= pre_keep.push(it)
                    + cap_keep(its@, tot + it.size));
                assert(pre_keep.push(it).drop_last() =~= pre_keep);
                assert(item_models(pre_keep.push(it)) =~= item_models(pre_keep).push(
                    item_model(it),
                ));
            }
            tot = tot + it.size;
            keep.push(it);
        } else {
            proof {
                assert(cap_keep(pre_its, tot as int) == cap_keep(its@, tot as int));
            }
        }
    }
    proof {
        assert(its@ =~= Seq::<JunkItem>::empty());
        assert(cap_keep(its@, tot as int) =~= Seq::<JunkItem>::empty());
        assert(keep@ + cap_keep(its@, tot as int) =~= keep@);
        assert(keep@ == cap_keep(q, 0));
        lemma_cap_keep_len(q, 0);
        lemma_cap_keep_submultiset(q, 0);
        lemma_take_submultiset(smodels, cap_n);
        if sum_model_sizes(cmodels) <= u64::MAX {
            assert(keep@ == q);
            assert(item_models(keep@) == smodels.take(cap_n));
        }
    }
    CategoryNode { category, items: keep, total_size: tot, expanded: false }
}

/// A browser cache root is included above this size.
pub const BROWSER_MIN_DIR_SIZE: u64 = 5_000_000;

/// A package-manager cache root is included above this size.
pub const PACKAGE_MIN_DIR_SIZE: u64 = 10_000_000;

/// A file under a system-junk root is included above this size.
pub const SYSTEM_JUNK_MIN_FILE_SIZE: u64 = 100_000;

/// At most this many system-junk items are kept.
pub const SYSTEM_JUNK_CAP: usize = 100;

/// The views of a table of (path, label) pairs.
pub open spec fn pair_views(s: Seq<(Vec<char>, Vec<char>)>) -> Seq<(Seq<char>, Seq<char>)> {
    s.map_values(|pr: (Vec<char>, Vec<char>)| (pr.0@, pr.1@))
}

/// The per-platform roots of the system-junk scan, each with its label.
pub open spec fn spec_system_junk_paths(home: Seq<char>, p: Platform) -> Seq<
    (Seq<char>, Seq<char>),
> {
    let sep = spec_separator(p);
    match p {
        Platform::MacOs => seq![
            (joined(home, sep, "Library/Logs"@), "User Logs"@),
            (joined(home, sep, "Library/Caches"@), "App Caches"@),
            ("/Library/Logs"@, "System Logs"@),
            ("/private/var/log"@, "Var Logs"@),
        ],
        Platform::Windows => seq![
            (joined(home, sep, "AppData/Local/Temp"@), "User Temp"@),
            ("C:\\Windows\\Temp"@, "System Temp"@),
            ("C:\\Windows\\Prefetch"@, "Prefetch"@),
            (joined(home, sep, "AppData/Local/Temp"@), "Local Temp"@),
        ],
        Platform::Linux => seq![
            (joined(home, sep, ".cache"@), "Cache"@),
            (joined(home, sep, ".local/share/Trash"@), "Trash"@),
            ("/var/log"@, "Var Logs"@),
            ("/tmp"@, "Temp"@),
        ],
    }
}

/// The per-platform browser cache roots, each with its label.
pub open spec fn spec_browser_paths(home: Seq<char>, p: Platform) -> Seq<(Seq<char>, Seq<char>)> {
    let sep = spec_separator(p);
    match p {
        Platform::MacOs => seq![
            (joined(home, sep, "Library/Caches/Google/Chrome"@), "Chrome Cache"@),
            (
                joined(home, sep, "Library/Application Support/Google/Chrome/Default/Cache"@),
                "Chrome Data"@,
            ),
            (
                joined(home, sep, "Library/Application Support/Google/Chrome/Default/Code Cache"@),
                "Chrome Code"@,
            ),
            (joined(home, sep, "Library/Caches/BraveSoftware/Brave-Browser"@), "Brave Cache"@),
            (
                joined(
                    home,
                    sep,
                    "Library/Application Support/BraveSoftware/Brave-Browser/Default/Cache"@,
                ),
                "Brave Data"@,
            ),
            (joined(home, sep, "Library/Caches/Firefox"@), "Firefox Cache"@),
            (joined(home, sep, "Library/Caches/com.apple.Safari"@), "Safari Cache"@),
            (
                joined(home, sep, "Library/Containers/com.apple.Safari/Data/Library/Caches"@),
                "Safari Container"@,
            ),
            (joined(home, sep, "Library/Caches/Microsoft Edge"@), "Edge Cache"@),
            (
                joined(home, sep, "Library/Application Support/Microsoft Edge/Default/Cache"@),
                "Edge Data"@,
            ),
            (joined(home, sep, "Library/Caches/company.thebrowser.Browser"@), "Arc Cache"@),
        ],
        Platform::Windows => seq![
            (
                joined(home, sep, "AppData/Local/Google/Chrome/User Data/Default/Cache"@),
                "Chrome Cache"@,
            ),
            (
                joined(home, sep, "AppData/Local/Google/Chrome/User Data/Default/Code Cache"@),
                "Chrome Code"@,
            ),
            (
                joined(
                    home,
                    sep,
                    "AppData/Local/BraveSoftware/Brave-Browser/User Data/Default/Cache"@,
                ),
                "Brave Cache"@,
            ),
            (joined(home, sep, "AppData/Local/Mozilla/Firefox/Profiles"@), "Firefox Cache"@),
            (
                joined(home, sep, "AppData/Local/Microsoft/Edge/User Data/Default/Cache"@),
                "Edge Cache"@,
            ),
        ],
        Platform::Linux => seq![
            (joined(home, sep, ".cache/google-chrome"@), "Chrome Cache"@),
            (joined(home, sep, ".cache/BraveSoftware"@), "Brave Cache"@),
            (joined(home, sep, ".cache/mozilla/firefox"@), "Firefox Cache"@),
            (joined(home, sep, ".cache/microsoft-edge"@), "Edge Cache"@),
        ],
    }
}

/// The per-platform package-manager cache roots, each with its label.
pub open spec fn spec_package_manager_paths(home: Seq<char>, p: Platform) -> Seq<
    (Seq<char>, Seq<char>),
> {
    let sep = spec_separator(p);
    match p {
        Platform::MacOs => seq![
            (joined(home, sep, "Library/Caches/Homebrew"@), "Homebrew"@),
            (joined(home, sep, ".cache/pip"@), "pip"@),
            (joined(home, sep, "Library/Caches/pip"@), "pip"@),
            (joined(home, sep, ".npm/_cacache"@), "npm"@),
            (joined(home, sep, ".npm/_logs"@), "npm Logs"@),
            (joined(home, sep, ".pnpm-store"@), "pnpm"@),
            (joined(home, sep, ".yarn/cache"@), "Yarn"@),
            (joined(home, sep, ".cargo/registry/cache"@), "Cargo"@),
            (joined(home, sep, ".cargo/registry/src"@), "Cargo Src"@),
            (joined(home, sep, ".gradle/caches"@), "Gradle"@),
            (joined(home, sep, ".m2/repository"@), "Maven"@),
            (joined(home, sep, ".rustup/toolchains"@), "Rustup"@),
            (joined(home, sep, "Library/Caches/CocoaPods"@), "CocoaPods"@),
            (joined(home, sep, "go/pkg/mod/cache"@), "Go Modules"@),
        ],
        Platform::Windows => seq![
            ("C:/ProgramData/chocolatey/lib"@, "Chocolatey"@),
            (joined(home, sep, "AppData/Local/npm-cache"@), "npm"@),
            (joined(home, sep, ".npm/_cacache"@), "npm"@),
            (joined(home, sep, ".pnpm-store"@), "pnpm"@),
            (joined(home, sep, ".yarn/cache"@), "Yarn"@),
            (joined(home, sep, ".cargo/registry/cache"@), "Cargo"@),
            (joined(home, sep, ".nuget/packages"@), "NuGet"@),
            (joined(home, sep, ".gradle/caches"@), "Gradle"@),
            (joined(home, sep, ".m2/repository"@), "Maven"@),
            (joined(home, sep, "AppData/Local/pip/Cache"@), "pip"@),
            (joined(home, sep, "go/pkg/mod/cache"@), "Go Modules"@),
        ],
        Platform::Linux => seq![
            (joined(home, sep, ".cache/pip"@), "pip"@),
            (joined(home, sep, ".npm/_cacache"@), "npm"@),
            (joined(home, sep, ".pnpm-store"@), "pnpm"@),
            (joined(home, sep, ".yarn/cache"@), "Yarn"@),
            (joined(home, sep, ".cargo/registry/cache"@), "Cargo"@),
            (joined(home, sep, ".gradle/caches"@), "Gradle"@),
            (joined(home, sep, ".m2/repository"@), "Maven"@),
            (joined(home, sep, "go/pkg/mod/cache"@), "Go Modules"@),
        ],
    }
}

fn push_joined(
    v: &mut Vec<(Vec<char>, Vec<char>)>,
    home: &Vec<char>,
    sep: char,
    rel: &str,
    label: &str,
)
    ensures
        final(v)@.len() == old(v)@.len() + 1,
        pair_views(final(v)@) =~= pair_views(old(v)@).push((joined(home@, sep, rel@), label@)),
{
    let ghost pre = v@;
    let r = str_to_chars(rel);
    v.push((path_join(home, sep, &r), str_to_chars(label)));
    proof {
        assert(pair_views(v@) =~= pair_views(pre).push((joined(home@, sep, rel@), label@)));
    }
}

fn push_fixed(v: &mut Vec<(Vec<char>, Vec<char>)>, path: &str, label: &str)
    ensures
        final(v)@.len() == old(v)@.len() + 1,
        pair_views(final(v)@) =~= pair_views(old(v)@).push((path@, label@)),
{
    let ghost pre = v@;
    v.push((str_to_chars(path), str_to_chars(label)));
    proof {
        assert(pair_views(v@) =~= pair_views(pre).push((path@, label@)));
    }
}

/// The system-junk roots for this platform, as runtime values.
pub fn get_system_junk_paths(home: &Vec<char>, p: Platform) -> (v: Vec<(Vec<char>, Vec<char>)>)
    ensures
        pair_views(v@) == spec_system_junk_paths(home@, p),
{
    let sep = p.separator();
    let mut v: Vec<(Vec<char>, Vec<char>)> = Vec::new();
    match p {
        Platform::MacOs => {
            push_joined(&mut v, home, sep, "Library/Logs", "User Logs");
            push_joined(&mut v, home, sep, "Library/Caches", "App Caches");
            push_fixed(&mut v, "/Library/Logs", "System Logs");
            push_fixed(&mut v, "/private/var/log", "Var Logs");
        },
        Platform::Windows => {
            push_joined(&mut v, home, sep, "AppData/Local/Temp", "User Temp");
            push_fixed(&mut v, "C:\\Windows\\Temp", "System Temp");
            push_fixed(&mut v, "C:\\Windows\\Prefetch", "Prefetch");
            push_joined(&mut v, home, sep, "AppData/Local/Temp", "Local Temp");
        },
        Platform::Linux => {
            push_joined(&mut v, home, sep, ".cache", "Cache");
            push_joined(&mut v, home, sep, ".local/share/Trash", "Trash");
            push_fixed(&mut v, "/var/log", "Var Logs");
            push_fixed(&mut v, "/tmp", "Temp");
        },
    }
    assert(pair_views(v@) =~= spec_system_junk_paths(home@, p));
    v
}

/// The browser cache roots for this platform, as runtime values.
pub fn get_browser_paths(home: &Vec<char>, p: Platform) -> (v: Vec<(Vec<char>, Vec<char>)>)
    ensures
        pair_views(v@) == spec_browser_paths(home@, p),
{
    let sep = p.separator();
    let mut v: Vec<(Vec<char>, Vec<char>)> = Vec::new();
    match p {
        Platform::MacOs => {
            push_joined(&mut v, home, sep, "Library/Caches/Google/Chrome", "Chrome Cache");
            push_joined(
                &mut v,
                home,
                sep,
                "Library/Application Support/Google/Chrome/Default/Cache",
                "Chrome Data",
            );
            push_joined(
                &mut v,
                home,
                sep,
                "Library/Application Support/Google/Chrome/Default/Code Cache",
                "Chrome Code",
            );
            push_joined(
                &mut v,
                home,
                sep,
                "Library/Caches/BraveSoftware/Brave-Browser",
                "Brave Cache",
            );
            push_joined(
                &mut v,
                home,
                sep,
                "Library/Application Support/BraveSoftware/Brave-Browser/Default/Cache",
                "Brave Data",
            );
            push_joined(&mut v, home, sep, "Library/Caches/Firefox", "Firefox Cache");
            push_joined(&mut v, home, sep, "Library/Caches/com.apple.Safari", "Safari Cache");
            push_joined(
                &mut v,
                home,
                sep,
                "Library/Containers/com.apple.Safari/Data/Library/Caches",
                "Safari Container",
            );
            push_joined(&mut v, home, sep, "Library/Caches/Microsoft Edge", "Edge Cache");
            push_joined(
                &mut v,
                home,
                sep,
                "Library/Application Support/Microsoft Edge/Default/Cache",
                "Edge Data",
            );
            push_joined(
                &mut v,
                home,
                sep,
                "Library/Caches/company.thebrowser.Browser",
                "Arc Cache",
            );
        },
        Platform::Windows => {
            push_joined(
                &mut v,
                home,
                sep,
                "AppData/Local/Google/Chrome/User Data/Default/Cache",
                "Chrome Cache",
            );
            push_joined(
                &mut v,
                home,
                sep,
                "AppData/Local/Google/Chrome/User Data/Default/Code Cache",
                "Chrome Code",
            );
            push_joined(
                &mut v,
                home,
                sep,
                "AppData/Local/BraveSoftware/Brave-Browser/User Data/Default/Cache",
                "Brave Cache",
            );
            push_joined(
                &mut v,
                home,
                sep,
                "AppData/Local/Mozilla/Firefox/Profiles",
                "Firefox Cache",
            );
            push_joined(
                &mut v,
                home,
                sep,
                "AppData/Local/Microsoft/Edge/User Data/Default/Cache",
                "Edge Cache",
            );
        },
        Platform::Linux => {
            push_joined(&mut v, home, sep, ".cache/google-chrome", "Chrome Cache");
            push_joined(&mut v, home, sep, ".cache/BraveSoftware", "Brave Cache");
            push_joined(&mut v, home, sep, ".cache/mozilla/firefox", "Firefox Cache");
            push_joined(&mut v, home, sep, ".cache/microsoft-edge", "Edge Cache");
        },
    }
    assert(pair_views(v@) =~= spec_browser_paths(home@, p));
    v
}

/// The package-manager cache roots for this platform, as runtime values.
pub fn get_package_manager_paths(home: &Vec<char>, p: Platform) -> (v: Vec<(Vec<char>, Vec<char>)>)
    ensures
        pair_views(v@) == spec_package_manager_paths(home@, p),
{
    let sep = p.separator();
    let mut v: Vec<(Vec<char>, Vec<char>)> = Vec::new();
    match p {
        Platform::MacOs => {
            push_joined(&mut v, home, sep, "Library/Caches/Homebrew", "Homebrew");
            push_joined(&mut v, home, sep, ".cache/pip", "pip");
            push_joined(&mut v, home, sep, "Library/Caches/pip", "pip");
            push_joined(&mut v, home, sep, ".npm/_cacache", "npm");
            push_joined(&mut v, home, sep, ".npm/_logs", "npm Logs");
            push_joined(&mut v, home, sep, ".pnpm-store", "pnpm");
            push_joined(&mut v, home, sep, ".yarn/cache", "Yarn");
            push_joined(&mut v, home, sep, ".cargo/registry/cache", "Cargo");
            push_joined(&mut v, home, sep, ".cargo/registry/src", "Cargo Src");
            push_joined(&mut v, home, sep, ".gradle/caches", "Gradle");
            push_joined(&mut v, home, sep, ".m2/repository", "Maven");
            push_joined(&mut v, home, sep, ".rustup/toolchains", "Rustup");
            push_joined(&mut v, home, sep, "Library/Caches/CocoaPods", "CocoaPods");
            push_joined(&mut v, home, sep, "go/pkg/mod/cache", "Go Modules");
        },
        Platform::Windows => {
            push_fixed(&mut v, "C:/ProgramData/chocolatey/lib", "Chocolatey");
            push_joined(&mut v, home, sep, "AppData/Local/npm-cache", "npm");
            push_joined(&mut v, home, sep, ".npm/_cacache", "npm");
            push_joined(&mut v, home, sep, ".pnpm-store", "pnpm");
            push_joined(&mut v, home, sep, ".yarn/cache", "Yarn");
            push_joined(&mut v, home, sep, ".cargo/registry/cache", "Cargo");
            push_joined(&mut v, home, sep, ".nuget/packages", "NuGet");
            push_joined(&mut v, home, sep, ".gradle/caches", "Gradle");
            push_joined(&mut v, home, sep, ".m2/repository", "Maven");
            push_joined(&mut v, home, sep, "AppData/Local/pip/Cache", "pip");
            push_joined(&mut v, home, sep, "go/pkg/mod/cache", "Go Modules");
        },
        Platform::Linux => {
            push_joined(&mut v, home, sep, ".cache/pip", "pip");
            push_joined(&mut v, home, sep, ".npm/_cacache", "npm");
            push_joined(&mut v, home, sep, ".pnpm-store", "pnpm");
            push_joined(&mut v, home, sep, ".yarn/cache", "Yarn");
            push_joined(&mut v, home, sep, ".cargo/registry/cache", "Cargo");
            push_joined(&mut v, home, sep, ".gradle/caches", "Gradle");
            push_joined(&mut v, home, sep, ".m2/repository", "Maven");
            push_joined(&mut v, home, sep, "go/pkg/mod/cache", "Go Modules");
        },
    }
    assert(pair_views(v@) =~= spec_package_manager_paths(home@, p));
    v
}

/// The qualifying items of a directory-unit scan over the first `i`
/// roots: each root that was measured, is not protected, and holds more
/// than `min` bytes becomes one item.
pub open spec fn dir_unit_models(
    roots: Seq<(Seq<char>, Seq<char>)>,
    sizes: Seq<Option<u64>>,
    home: Seq<char>,
    p: Platform,
    min: u64,
    i: int,
) -> Seq<ItemModel>
    decreases i,
{
    if i <= 0 {
        Seq::empty()
    } else {
        dir_unit_models(roots, sizes, home, p, min, i - 1) + match sizes[i - 1] {
            Some(sz) => if !spec_is_protected(roots[i - 1].0, home, p) && sz > min {
                seq![(roots[i - 1].0, sz, roots[i - 1].1)]
            } else {
                Seq::empty()
            },
            None => Seq::empty(),
        }
    }
}

fn collect_dir_units(
    roots: Vec<(Vec<char>, Vec<char>)>,
    sizes: &Vec<Option<u64>>,
    home: &Vec<char>,
    p: Platform,
    min: u64,
) -> (r: Vec<JunkItem>)
    requires
        sizes@.len() == roots@.len(),
    ensures
        item_models(r@) == dir_unit_models(
            pair_views(roots@),
            sizes@,
            home@,
            p,
            min,
            roots@.len() as int,
        ),
{
    let ghost rviews = pair_views(roots@);
    let ghost n = roots@.len() as int;
    let total = sizes.len();
    let mut src = roots;
    let mut out: Vec<JunkItem> = Vec::new();
    proof {
        assert(item_models(out@) =~= dir_unit_models(rviews, sizes@, home@, p, min, 0));
    }
    let mut i: usize = 0;
    while src.len() > 0
        invariant
            src@.len() <= n,
            i == n - src@.len(),
            n == rviews.len(),
            sizes@.len() == n,
            total == n,
            forall|j: int|
                0 <= j < src@.len() ==> ((#[trigger] src@[j]).0@, src@[j].1@) == rviews[i + j],
            item_models(out@) == dir_unit_models(rviews, sizes@, home@, p, min, i as int),
        decreases src@.len(),
    {
        let (path, label) = src.remove(0);
        proof {
            assert((path@, label@) == rviews[i as int]);
        }
        match sizes[i] {
            Some(sz) => {
                if sz > min && !is_protected(&path, home, p) {
                    let ghost pre = out@;
                    out.push(JunkItem { path, size: sz, junk_type: label });
                    proof {
                        assert(item_models(out@) =~= item_models(pre).push(
                            (rviews[i as int].0, sz, rviews[i as int].1),
                        ));
                        assert(item_models(out@) =~= dir_unit_models(
                            rviews,
                            sizes@,
                            home@,
                            p,
                            min,
                            i + 1,
                        ));
                    }
                } else {
                    proof {
                        assert(item_models(out@) + Seq::<ItemModel>::empty() =~= item_models(
                            out@,
                        ));
                    }
                }
            },
            None => {
                proof {
                    assert(item_models(out@) + Seq::<ItemModel>::empty() =~= item_models(out@));
                }
            },
        }
        i += 1;
    }
    out
}

/// Scans the browser cache roots: each measured root above the size
/// threshold becomes one directory-unit item; the result is sorted by
/// descending size. `sizes[i]` is the measured total size of the `i`-th
/// root of `get_browser_paths`, or `None` when it does not exist.
pub fn scan_browser_bloat(home: &Vec<char>, p: Platform, sizes: &Vec<Option<u64>>) -> (r:
    CategoryNode)
    requires
        sizes@.len() == spec_browser_paths(home@, p).len(),
    ensures
        r.category == JunkCategory::BrowserBloat,
        r.expanded == false,
        r.wf(),
        sorted_desc(item_models(r.items@)),
        item_models(r.items@).to_multiset().subset_of(
            dir_unit_models(
                spec_browser_paths(home@, p),
                sizes@,
                home@,
                p,
                BROWSER_MIN_DIR_SIZE,
                spec_browser_paths(home@, p).len() as int,
            ).to_multiset(),
        ),
        exists|s: Seq<ItemModel>|
            {
                let qual = dir_unit_models(
                    spec_browser_paths(home@, p),
                    sizes@,
                    home@,
                    p,
                    BROWSER_MIN_DIR_SIZE,
                    spec_browser_paths(home@, p).len() as int,
                );
                &&& #[trigger] sorted_desc(s)
                &&& s.to_multiset() == qual.to_multiset()
                &&& (sum_model_sizes(qual) <= u64::MAX ==> item_models(r.items@) == s)
            },
{
    let roots = get_browser_paths(home, p);
    let collected = collect_dir_units(roots, sizes, home, p, BROWSER_MIN_DIR_SIZE);
    let ghost qual = item_models(collected@);
    let node = assemble_node(JunkCategory::BrowserBloat, collected, None);
    proof {
        let s = choose|s: Seq<ItemModel>|
            {
                &&& #[trigger] sorted_desc(s)
                &&& s.to_multiset() == qual.to_multiset()
                &&& (sum_model_sizes(qual) <= u64::MAX ==> item_models(node.items@) == s.take(
                    s.len() as int,
                ))
            };
        assert(s.take(s.len() as int) =~= s);
    }
    node
}

/// Scans the package-manager cache roots, in the same directory-unit
/// way as the browser scan, above its own threshold.
pub fn scan_package_managers(home: &Vec<char>, p: Platform, sizes: &Vec<Option<u64>>) -> (r:
    CategoryNode)
    requires
        sizes@.len() == spec_package_manager_paths(home@, p).len(),
    ensures
        r.category == JunkCategory::PackageManagers,
        r.expanded == false,
        r.wf(),
        sorted_desc(item_models(r.items@)),
        item_models(r.items@).to_multiset().subset_of(
            dir_unit_models(
                spec_package_manager_paths(home@, p),
                sizes@,
                home@,
                p,
                PACKAGE_MIN_DIR_SIZE,
                spec_package_manager_paths(home@, p).len() as int,
            ).to_multiset(),
        ),
        exists|s: Seq<ItemModel>|
            {
                let qual = dir_unit_models(
                    spec_package_manager_paths(home@, p),
                    sizes@,
                    home@,
                    p,
                    PACKAGE_MIN_DIR_SIZE,
                    spec_package_manager_paths(home@, p).len() as int,
                );
                &&& #[trigger] sorted_desc(s)
                &&& s.to_multiset() == qual.to_multiset()
                &&& (sum_model_sizes(qual) <= u64::MAX ==> item_models(r.items@) == s)
            },
{
    let roots = get_package_manager_paths(home, p);
    let collected = collect_dir_units(roots, sizes, home, p, PACKAGE_MIN_DIR_SIZE);
    let ghost qual = item_models(collected@);
    let node = assemble_node(JunkCategory::PackageManagers, collected, None);
    proof {
        let s = choose|s: Seq<ItemModel>|
            {
                &&& #[trigger] sorted_desc(s)
                &&& s.to_multiset() == qual.to_multiset()
                &&& (sum_model_sizes(qual) <= u64::MAX ==> item_models(node.items@) == s.take(
                    s.len() as int,
                ))
            };
        assert(s.take(s.len() as int) =~= s);
    }
    node
}

/// The views of a run of walked listings.
pub open spec fn listing_views(s: Seq<Vec<FileEntry>>) -> Seq<Seq<FileEntry>> {
    s.map_values(|l: Vec<FileEntry>| l@)
}

/// The qualifying items of one walked root: its regular files above
/// `min` bytes, each labelled with the root's label.
pub open spec fn root_file_models(entries: Seq<FileEntry>, label: Seq<char>, min: u64) -> Seq<
    ItemModel,
> {
    entries.filter(|e: FileEntry| e.is_file && e.size > min).map_values(
        |e: FileEntry| (e.path@, e.size, label),
    )
}

fn collect_root_files(out: &mut Vec<JunkItem>, entries: &Vec<FileEntry>, label: &Vec<char>, min: u64)
    ensures
        item_models(final(out)@) == item_models(old(out)@) + root_file_models(
            entries@,
            label@,
            min,
        ),
{
    broadcast use vstd::prelude::Seq::lemma_filter_push;
    broadcast use vstd::prelude::Seq::lemma_filter_len;

    let ghost base = item_models(old(out)@);
    proof {
        assert(root_file_models(entries@.subrange(0, 0), label@, min) =~= Seq::<
            ItemModel,
        >::empty());
        assert(base + Seq::<ItemModel>::empty() =~= base);
    }
    let mut k: usize = 0;
    while k < entries.len()
        invariant
            k <= entries@.len(),
            base == item_models(old(out)@),
            item_models(out@) == base + root_file_models(entries@.subrange(0, k as int), label@, min),
        decreases entries@.len() - k,
    {
        let ghost prefix = entries@.subrange(0, k as int);
        let ghost e_k = entries@[k as int];
        proof {
            assert(entries@.subrange(0, k + 1) =~= prefix.push(e_k));
        }
        let e = &entries[k];
        if e.is_file && e.size > min {
            let ghost pre = out@;
            out.push(JunkItem { path: e.path.clone(), size: e.size, junk_type: label.clone() });
            proof {
                assert(item_models(out@) =~= item_models(pre).push((e_k.path@, e_k.size, label@)));
                assert(root_file_models(prefix.push(e_k), label@, min) =~= root_file_models(
                    prefix,
                    label@,
                    min,
                ).push((e_k.path@, e_k.size, label@)));
                assert(item_models(out@) =~= base + root_file_models(
                    entries@.subrange(0, k + 1),
                    label@,
                    min,
                ));
            }
        } else {
            proof {
                assert(root_file_models(prefix.push(e_k), label@, min) =~= root_file_models(
                    prefix,
                    label@,
                    min,
                ));
            }
        }
        k += 1;
    }
    proof {
        assert(entries@.subrange(0, entries@.len() as int) =~= entries@);
    }
}

/// The qualifying system-junk items over the first `i` roots: each root
/// that is not protected contributes its regular files above the
/// threshold. A root that does not exist arrives as an empty listing.
pub open spec fn spec_system_junk_qualifying(
    home: Seq<char>,
    p: Platform,
    listings: Seq<Seq<FileEntry>>,
    i: int,
) -> Seq<ItemModel>
    decreases i,
{
    let roots = spec_system_junk_paths(home, p);
    if i <= 0 {
        Seq::empty()
    } else {
        spec_system_junk_qualifying(home, p, listings, i - 1) + if !spec_is_protected(
            roots[i - 1].0,
            home,
            p,
        ) {
            root_file_models(listings[i - 1], roots[i - 1].1, SYSTEM_JUNK_MIN_FILE_SIZE)
        } else {
            Seq::empty()
        }
    }
}

/// Scans the system-junk roots. `listings[i]` holds the walk of the
/// `i`-th root of `get_system_junk_paths` (empty when it does not
/// exist); protected roots are skipped whole. The result holds the
/// largest qualifying files, sorted by descending size and capped.
pub fn scan_system_junk(home: &Vec<char>, p: Platform, listings: &Vec<Vec<FileEntry>>) -> (r:
    CategoryNode)
    requires
        listings@.len() == spec_system_junk_paths(home@, p).len(),
    ensures
        r.category == JunkCategory::SystemJunk,
        r.expanded == false,
        r.wf(),
        sorted_desc(item_models(r.items@)),
        r.items@.len() <= SYSTEM_JUNK_CAP,
        item_models(r.items@).to_multiset().subset_of(
            spec_system_junk_qualifying(
                home@,
                p,
                listing_views(listings@),
                spec_system_junk_paths(home@, p).len() as int,
            ).to_multiset(),
        ),
        exists|s: Seq<ItemModel>|
            {
                let qual = spec_system_junk_qualifying(
                    home@,
                    p,
                    listing_views(listings@),
                    spec_system_junk_paths(home@, p).len() as int,
                );
                &&& #[trigger] sorted_desc(s)
                &&& s.to_multiset() == qual.to_multiset()
                &&& (sum_model_sizes(qual) <= u64::MAX ==> item_models(r.items@) == s.take(
                    vstd::math::min(SYSTEM_JUNK_CAP as int, s.len() as int),
                ))
            },
{
    let roots = get_system_junk_paths(home, p);
    let ghost rviews = spec_system_junk_paths(home@, p);
    let ghost lviews = listing_views(listings@);
    let n = roots.len();
    proof {
        assert(rviews.len() == n);
    }
    let mut collected: Vec<JunkItem> = Vec::new();
    proof {
        assert(item_models(collected@) =~= spec_system_junk_qualifying(home@, p, lviews, 0));
    }
    let mut i: usize = 0;
    while i < n
        invariant
            i <= n,
            n == rviews.len(),
            n == roots@.len(),
            n == listings@.len(),
            pair_views(roots@) == rviews,
            lviews == listing_views(listings@),
            item_models(collected@) == spec_system_junk_qualifying(home@, p, lviews, i as int),
        decreases n - i,
    {
        proof {
            assert((roots@[i as int].0@, roots@[i as int].1@) == rviews[i as int]);
            assert(lviews[i as int] == listings@[i as int]@);
        }
        if !is_protected(&roots[i].0, home, p) {
            collect_root_files(
                &mut collected,
                &listings[i],
                &roots[i].1,
                SYSTEM_JUNK_MIN_FILE_SIZE,
            );
        } else {
            proof {
                assert(item_models(collected@) + Seq::<ItemModel>::empty() =~= item_models(
                    collected@,
                ));
            }
        }
        i += 1;
    }
    assemble_node(JunkCategory::SystemJunk, collected, Some(SYSTEM_JUNK_CAP))
}

/// A file is a large-file candidate at or above this size.
pub const LARGE_FILE_MIN_SIZE: u64 = 500_000_000;

/// At most this many large files are kept.
pub const LARGE_FILES_CAP: usize = 50;

/// The user content directories the large-file scan walks.
pub open spec fn spec_large_file_dirs(home: Seq<char>, p: Platform) -> Seq<Seq<char>> {
    let sep = spec_separator(p);
    seq![
        joined(home, sep, "Downloads"@),
        joined(home, sep, "Desktop"@),
        joined(home, sep, "Documents"@),
        joined(home, sep, "Movies"@),
    ]
}

/// The user content directories as runtime values.
pub fn get_large_file_dirs(home: &Vec<char>, p: Platform) -> (v: Vec<Vec<char>>)
    ensures
        v.deep_view() == spec_large_file_dirs(home@, p),
{
    let sep = p.separator();
    let mut v: Vec<Vec<char>> = Vec::new();
    v.push(path_join(home, sep, &str_to_chars("Downloads")));
    v.push(path_join(home, sep, &str_to_chars("Desktop")));
    v.push(path_join(home, sep, &str_to_chars("Documents")));
    v.push(path_join(home, sep, &str_to_chars("Movies")));
    assert(v.deep_view() =~~= spec_large_file_dirs(home@, p));
    v
}

/// Extensions a large file is never flagged under: virtual-machine disk
/// images are not junk.
pub open spec fn spec_excluded_extensions() -> Seq<Seq<char>> {
    seq!["vmdk"@, "vdi"@, "qcow2"@, "img"@]
}

fn is_excluded_extension(ext: &Vec<char>) -> (r: bool)
    ensures
        r == spec_excluded_extensions().contains(ext@),
{
    let table: [&str; 4] = ["vmdk", "vdi", "qcow2", "img"];
    let mut j: usize = 0;
    while j < 4
        invariant
            j <= 4,
            forall|k: int| 0 <= k < j ==> spec_excluded_extensions()[k] != ext@,
        decreases 4 - j,
    {
        let cand = str_to_chars(table[j]);
        proof {
            assert(table@[j as int]@ == spec_excluded_extensions()[j as int]);
        }
        if crate::pathutil::chars_eq(&cand, ext) {
            assert(spec_excluded_extensions().contains(ext@));
            return true;
        }
        j += 1;
    }
    assert(!spec_excluded_extensions().contains(ext@));
    false
}

/// True when the large-file scan keeps this entry: a regular file at or
/// above the size floor, not a disk image, and not protected.
pub open spec fn large_file_keeps(e: FileEntry, home: Seq<char>, p: Platform) -> bool {
    let ext = lowered(extension_of(e.path@, spec_separator(p)));
    &&& e.is_file
    &&& e.size >= LARGE_FILE_MIN_SIZE
    &&& !spec_excluded_extensions().contains(ext)
    &&& !spec_is_protected(e.path@, home, p)
}

/// The label of a kept large file: its extension upper-cased, or a
/// generic one when it has none.
pub open spec fn large_file_label(e: FileEntry, p: Platform) -> Seq<char> {
    let ext = lowered(extension_of(e.path@, spec_separator(p)));
    if ext.len() == 0 {
        "Large File"@
    } else {
        uppered(ext)
    }
}

/// The qualifying large files of one walked directory.
pub open spec fn large_file_models(entries: Seq<FileEntry>, home: Seq<char>, p: Platform) -> Seq<
    ItemModel,
> {
    entries.filter(|e: FileEntry| large_file_keeps(e, home, p)).map_values(
        |e: FileEntry| (e.path@, e.size, large_file_label(e, p)),
    )
}

/// The qualifying large files over the first `i` walked directories.
pub open spec fn spec_large_files_qualifying(
    home: Seq<char>,
    p: Platform,
    listings: Seq<Seq<FileEntry>>,
    i: int,
) -> Seq<ItemModel>
    decreases i,
{
    if i <= 0 {
        Seq::empty()
    } else {
        spec_large_files_qualifying(home, p, listings, i - 1) + large_file_models(
            listings[i - 1],
            home,
            p,
        )
    }
}

fn collect_large_files(
    out: &mut Vec<JunkItem>,
    entries: &Vec<FileEntry>,
    home: &Vec<char>,
    p: Platform,
)
    ensures
        item_models(final(out)@) == item_models(old(out)@) + large_file_models(entries@, home@, p),
{
    broadcast use vstd::prelude::Seq::lemma_filter_push;
    broadcast use vstd::prelude::Seq::lemma_filter_len;

    let ghost base = item_models(old(out)@);
    let sep = p.separator();
    proof {
        assert(large_file_models(entries@.subrange(0, 0), home@, p) =~= Seq::<ItemModel>::empty());
        assert(base + Seq::<ItemModel>::empty() =~= base);
    }
    let mut k: usize = 0;
    while k < entries.len()
        invariant
            k <= entries@.len(),
            sep == spec_separator(p),
            base == item_models(old(out)@),
            item_models(out@) == base + large_file_models(entries@.subrange(0, k as int), home@, p),
        decreases entries@.len() - k,
    {
        let ghost prefix = entries@.subrange(0, k as int);
        let ghost e_k = entries@[k as int];
        proof {
            assert(entries@.subrange(0, k + 1) =~= prefix.push(e_k));
        }
        let e = &entries[k];
        let mut kept = false;
        if e.is_file && e.size >= LARGE_FILE_MIN_SIZE {
            let ext_raw = extension(&e.path, sep);
            let ext = to_lowercase(&ext_raw);
            if !is_excluded_extension(&ext) && !is_protected(&e.path, home, p) {
                let ghost pre = out@;
                let label = if ext.len() == 0 {
                    str_to_chars("Large File")
                } else {
                    to_uppercase(&ext)
                };
                proof {
                    assert(label@ == large_file_label(e_k, p));
                }
                out.push(JunkItem { path: e.path.clone(), size: e.size, junk_type: label });
                kept = true;
                proof {
                    assert(large_file_keeps(e_k, home@, p));
                    assert(item_models(out@) =~= item_models(pre).push(
                        (e_k.path@, e_k.size, large_file_label(e_k, p)),
                    ));
                    assert(large_file_models(prefix.push(e_k), home@, p) =~= large_file_models(
                        prefix,
                        home@,
                        p,
                    ).push((e_k.path@, e_k.size, large_file_label(e_k, p))));
                }
            }
        }
        proof {
            if !kept {
                assert(!large_file_keeps(e_k, home@, p));
                assert(large_file_models(prefix.push(e_k), home@, p) =~= large_file_models(
                    prefix,
                    home@,
                    p,
                ));
            }
        }
        k += 1;
    }
    proof {
        assert(entries@.subrange(0, entries@.len() as int) =~= entries@);
    }
}

/// Scans the user content directories for oversized files. `listings[i]`
/// holds the walk of the `i`-th directory of `get_large_file_dirs`
/// (empty when it does not exist). Disk-image files are excluded, the
/// guard is consulted per file, and the largest survivors are kept.
pub fn scan_large_files(home: &Vec<char>, p: Platform, listings: &Vec<Vec<FileEntry>>) -> (r:
    CategoryNode)
    requires
        listings@.len() == spec_large_file_dirs(home@, p).len(),
    ensures
        r.category == JunkCategory::LargeFiles,
        r.expanded == false,
        r.wf(),
        sorted_desc(item_models(r.items@)),
        r.items@.len() <= LARGE_FILES_CAP,
        item_models(r.items@).to_multiset().subset_of(
            spec_large_files_qualifying(
                home@,
                p,
                listing_views(listings@),
                spec_large_file_dirs(home@, p).len() as int,
            ).to_multiset(),
        ),
        exists|s: Seq<ItemModel>|
            {
                let qual = spec_large_files_qualifying(
                    home@,
                    p,
                    listing_views(listings@),
                    spec_large_file_dirs(home@, p).len() as int,
                );
                &&& #[trigger] sorted_desc(s)
                &&& s.to_multiset() == qual.to_multiset()
                &&& (sum_model_sizes(qual) <= u64::MAX ==> item_models(r.items@) == s.take(
                    vstd::math::min(LARGE_FILES_CAP as int, s.len() as int),
                ))
            },
{
    let ghost lviews = listing_views(listings@);
    let n = listings.len();
    let mut collected: Vec<JunkItem> = Vec::new();
    proof {
        assert(item_models(collected@) =~= spec_large_files_qualifying(home@, p, lviews, 0));
    }
    let mut i: usize = 0;
    while i < n
        invariant
            i <= n,
            n == listings@.len(),
            n == spec_large_file_dirs(home@, p).len(),
            lviews == listing_views(listings@),
            item_models(collected@) == spec_large_files_qualifying(home@, p, lviews, i as int),
        decreases n - i,
    {
        proof {
            assert(lviews[i as int] == listings@[i as int]@);
        }
        collect_large_files(&mut collected, &listings[i], home, p);
        i += 1;
    }
    let node = assemble_node(JunkCategory::LargeFiles, collected, Some(LARGE_FILES_CAP));
    node
}

/// A download is old once it is at least this many seconds old.
pub const OLD_DOWNLOAD_AGE_SECS: u64 = 2_592_000;

/// An old download is included above this size.
pub const OLD_DOWNLOAD_MIN_SIZE: u64 = 1_000_000;

/// The mail-downloads cache is included above this size.
pub const MAIL_MIN_DIR_SIZE: u64 = 10_000_000;

/// The moment before which a download counts as old: the cutoff is the
/// age threshold before `now`, or the epoch when `now` is younger than
/// that.
pub open spec fn spec_old_cutoff(now: u64) -> int {
    if now >= OLD_DOWNLOAD_AGE_SECS {
        now - OLD_DOWNLOAD_AGE_SECS
    } else {
        0
    }
}

/// True when the hoarding scan keeps a download as old: a regular file,
/// modified before the cutoff, above the size threshold.
pub open spec fn old_download_keeps(e: FileEntry, now: u64) -> bool {
    e.is_file && (e.modified as int) < spec_old_cutoff(now) && e.size > OLD_DOWNLOAD_MIN_SIZE
}

/// The old downloads of a walked Downloads directory.
pub open spec fn old_download_models(entries: Seq<FileEntry>, now: u64) -> Seq<ItemModel> {
    entries.filter(|e: FileEntry| old_download_keeps(e, now)).map_values(
        |e: FileEntry| (e.path@, e.size, "Old Download"@),
    )
}

/// True when a desktop entry's name reads like a screenshot.
pub open spec fn screenshot_keeps(e: FileEntry, p: Platform) -> bool {
    let name = lowered(crate::pathutil::file_name_of(e.path@, spec_separator(p)));
    contains_seq(name, "screenshot"@) || contains_seq(name, "screen shot"@) || is_prefix_of(
        "capture"@,
        name,
    )
}

/// The screenshots of a listed Desktop directory.
pub open spec fn screenshot_models(entries: Seq<FileEntry>, p: Platform) -> Seq<ItemModel> {
    entries.filter(|e: FileEntry| screenshot_keeps(e, p)).map_values(
        |e: FileEntry| (e.path@, e.size, "Screenshot"@),
    )
}

/// The mail-downloads cache as one directory-unit item; it exists only
/// on the platform that has one, above the size threshold.
pub open spec fn mail_models(home: Seq<char>, p: Platform, size: Option<u64>) -> Seq<ItemModel> {
    match size {
        Some(sz) => if p is MacOs && sz > MAIL_MIN_DIR_SIZE {
            seq![
                (
                    joined(
                        home,
                        spec_separator(p),
                        "Library/Containers/com.apple.mail/Data/Library/Mail Downloads"@,
                    ),
                    sz,
                    "Mail Downloads"@,
                ),
            ]
        } else {
            Seq::empty()
        },
        None => Seq::empty(),
    }
}

/// True when a Downloads entry's name reads like an installer: a disk
/// image, installer package or executable, by extension.
pub open spec fn installer_keeps(e: FileEntry, p: Platform) -> bool {
    let name = lowered(crate::pathutil::file_name_of(e.path@, spec_separator(p)));
    crate::pathutil::is_suffix_of(".dmg"@, name) || crate::pathutil::is_suffix_of(".pkg"@, name)
        || crate::pathutil::is_suffix_of(".exe"@, name) || crate::pathutil::is_suffix_of(
        ".msi"@,
        name,
    ) || crate::pathutil::is_suffix_of(".iso"@, name)
}

/// The installers of a listed Downloads directory.
pub open spec fn installer_models(entries: Seq<FileEntry>, p: Platform) -> Seq<ItemModel> {
    entries.filter(|e: FileEntry| installer_keeps(e, p)).map_values(
        |e: FileEntry| (e.path@, e.size, "Installer"@),
    )
}

/// Everything the hoarding scan would keep: old downloads, screenshots,
/// the mail-downloads cache, and installers, in that order.
pub open spec fn spec_hoarding_qualifying(
    home: Seq<char>,
    p: Platform,
    downloads_walk: Seq<FileEntry>,
    desktop_entries: Seq<FileEntry>,
    downloads_entries: Seq<FileEntry>,
    mail_dir_size: Option<u64>,
    now: u64,
) -> Seq<ItemModel> {
    old_download_models(downloads_walk, now) + screenshot_models(desktop_entries, p) + mail_models(
        home,
        p,
        mail_dir_size,
    ) + installer_models(downloads_entries, p)
}

fn collect_old_downloads(out: &mut Vec<JunkItem>, entries: &Vec<FileEntry>, now: u64)
    ensures
        item_models(final(out)@) == item_models(old(out)@) + old_download_models(entries@, now),
{
    broadcast use vstd::prelude::Seq::lemma_filter_push;
    broadcast use vstd::prelude::Seq::lemma_filter_len;

    let ghost base = item_models(old(out)@);
    let cutoff: u64 = if now >= OLD_DOWNLOAD_AGE_SECS {
        now - OLD_DOWNLOAD_AGE_SECS
    } else {
        0
    };
    let label = str_to_chars("Old Download");
    proof {
        assert(old_download_models(entries@.subrange(0, 0), now) =~= Seq::<ItemModel>::empty());
        assert(base + Seq::<ItemModel>::empty() =~= base);
    }
    let mut k: usize = 0;
    while k < entries.len()
        invariant
            k <= entries@.len(),
            cutoff == spec_old_cutoff(now),
            label@ == "Old Download"@,
            base == item_models(old(out)@),
            item_models(out@) == base + old_download_models(entries@.subrange(0, k as int), now),
        decreases entries@.len() - k,
    {
        let ghost prefix = entries@.subrange(0, k as int);
        let ghost e_k = entries@[k as int];
        proof {
            assert(entries@.subrange(0, k + 1) =~= prefix.push(e_k));
        }
        let e = &entries[k];
        if e.is_file && e.modified < cutoff && e.size > OLD_DOWNLOAD_MIN_SIZE {
            let ghost pre = out@;
            out.push(JunkItem { path: e.path.clone(), size: e.size, junk_type: label.clone() });
            proof {
                assert(item_models(out@) =~= item_models(pre).push(
                    (e_k.path@, e_k.size, "Old Download"@),
                ));
                assert(old_download_models(prefix.push(e_k), now) =~= old_download_models(
                    prefix,
                    now,
                ).push((e_k.path@, e_k.size, "Old Download"@)));
            }
        } else {
            proof {
                assert(old_download_models(prefix.push(e_k), now) =~= old_download_models(
                    prefix,
                    now,
                ));
            }
        }
        k += 1;
    }
    proof {
        assert(entries@.subrange(0, entries@.len() as int) =~= entries@);
    }
}

fn collect_screenshots(out: &mut Vec<JunkItem>, entries: &Vec<FileEntry>, p: Platform)
    ensures
        item_models(final(out)@) == item_models(old(out)@) + screenshot_models(entries@, p),
{
    broadcast use vstd::prelude::Seq::lemma_filter_push;
    broadcast use vstd::prelude::Seq::lemma_filter_len;

    let ghost base = item_models(old(out)@);
    let sep = p.separator();
    let label = str_to_chars("Screenshot");
    let pat_a = str_to_chars("screenshot");
    let pat_b = str_to_chars("screen shot");
    let pat_c = str_to_chars("capture");
    proof {
        assert(screenshot_models(entries@.subrange(0, 0), p) =~= Seq::<ItemModel>::empty());
        assert(base + Seq::<ItemModel>::empty() =~= base);
    }
    let mut k: usize = 0;
    while k < entries.len()
        invariant
            k <= entries@.len(),
            sep == spec_separator(p),
            label@ == "Screenshot"@,
            pat_a@ == "screenshot"@,
            pat_b@ == "screen shot"@,
            pat_c@ == "capture"@,
            base == item_models(old(out)@),
            item_models(out@) == base + screenshot_models(entries@.subrange(0, k as int), p),
        decreases entries@.len() - k,
    {
        let ghost prefix = entries@.subrange(0, k as int);
        let ghost e_k = entries@[k as int];
        proof {
            assert(entries@.subrange(0, k + 1) =~= prefix.push(e_k));
        }
        let e = &entries[k];
        let name = to_lowercase(&crate::pathutil::file_name(&e.path, sep));
        let hit = contains_chars(&name, &pat_a) || contains_chars(&name, &pat_b) || starts_with(
            &name,
            &pat_c,
        );
        if hit {
            let ghost pre = out@;
            out.push(JunkItem { path: e.path.clone(), size: e.size, junk_type: label.clone() });
            proof {
                assert(screenshot_keeps(e_k, p));
                assert(item_models(out@) =~= item_models(pre).push(
                    (e_k.path@, e_k.size, "Screenshot"@),
                ));
                assert(screenshot_models(prefix.push(e_k), p) =~= screenshot_models(
                    prefix,
                    p,
                ).push((e_k.path@, e_k.size, "Screenshot"@)));
            }
        } else {
            proof {
                assert(!screenshot_keeps(e_k, p));
                assert(screenshot_models(prefix.push(e_k), p) =~= screenshot_models(prefix, p));
            }
        }
        k += 1;
    }
    proof {
        assert(entries@.subrange(0, entries@.len() as int) =~= entries@);
    }
}

fn collect_installers(out: &mut Vec<JunkItem>, entries: &Vec<FileEntry>, p: Platform)
    ensures
        item_models(final(out)@) == item_models(old(out)@) + installer_models(entries@, p),
{
    broadcast use vstd::prelude::Seq::lemma_filter_push;
    broadcast use vstd::prelude::Seq::lemma_filter_len;

    let ghost base = item_models(old(out)@);
    let sep = p.separator();
    let label = str_to_chars("Installer");
    let suf_a = str_to_chars(".dmg");
    let suf_b = str_to_chars(".pkg");
    let suf_c = str_to_chars(".exe");
    let suf_d = str_to_chars(".msi");
    let suf_e = str_to_chars(".iso");
    proof {
        assert(installer_models(entries@.subrange(0, 0), p) =~= Seq::<ItemModel>::empty());
        assert(base + Seq::<ItemModel>::empty() =~= base);
    }
    let mut k: usize = 0;
    while k < entries.len()
        invariant
            k <= entries@.len(),
            sep == spec_separator(p),
            label@ == "Installer"@,
            suf_a@ == ".dmg"@,
            suf_b@ == ".pkg"@,
            suf_c@ == ".exe"@,
            suf_d@ == ".msi"@,
            suf_e@ == ".iso"@,
            base == item_models(old(out)@),
            item_models(out@) == base + installer_models(entries@.subrange(0, k as int), p),
        decreases entries@.len() - k,
    {
        let ghost prefix = entries@.subrange(0, k as int);
        let ghost e_k = entries@[k as int];
        proof {
            assert(entries@.subrange(0, k + 1) =~= prefix.push(e_k));
        }
        let e = &entries[k];
        let name = to_lowercase(&crate::pathutil::file_name(&e.path, sep));
        let hit = crate::pathutil::ends_with(&name, &suf_a) || crate::pathutil::ends_with(
            &name,
            &suf_b,
        ) || crate::pathutil::ends_with(&name, &suf_c) || crate::pathutil::ends_with(&name, &suf_d)
            || crate::pathutil::ends_with(&name, &suf_e);
        if hit {
            let ghost pre = out@;
            out.push(JunkItem { path: e.path.clone(), size: e.size, junk_type: label.clone() });
            proof {
                assert(installer_keeps(e_k, p));
                assert(item_models(out@) =~= item_models(pre).push(
                    (e_k.path@, e_k.size, "Installer"@),
                ));
                assert(installer_models(prefix.push(e_k), p) =~= installer_models(prefix, p).push(
                    (e_k.path@, e_k.size, "Installer"@),
                ));
            }
        } else {
            proof {
                assert(!installer_keeps(e_k, p));
                assert(installer_models(prefix.push(e_k), p) =~= installer_models(prefix, p));
            }
        }
        k += 1;
    }
    proof {
        assert(entries@.subrange(0, entries@.len() as int) =~= entries@);
    }
}

/// Scans for user hoarding: downloads older than the age threshold,
/// screenshot-named desktop entries, an oversized mail-downloads cache,
/// and installer files in Downloads. `downloads_walk` is the recursive
/// walk of the Downloads directory; `desktop_entries` and
/// `downloads_entries` list those directories' immediate entries;
/// `mail_dir_size` is the measured mail-downloads cache, when it exists;
/// `now` is the current time in seconds since the epoch.
pub fn scan_user_hoarding(
    home: &Vec<char>,
    p: Platform,
    downloads_walk: &Vec<FileEntry>,
    desktop_entries: &Vec<FileEntry>,
    downloads_entries: &Vec<FileEntry>,
    mail_dir_size: Option<u64>,
    now: u64,
) -> (r: CategoryNode)
    ensures
        r.category == JunkCategory::UserHoarding,
        r.expanded == false,
        r.wf(),
        sorted_desc(item_models(r.items@)),
        item_models(r.items@).to_multiset().subset_of(
            spec_hoarding_qualifying(
                home@,
                p,
                downloads_walk@,
                desktop_entries@,
                downloads_entries@,
                mail_dir_size,
                now,
            ).to_multiset(),
        ),
        exists|s: Seq<ItemModel>|
            {
                let qual = spec_hoarding_qualifying(
                    home@,
                    p,
                    downloads_walk@,
                    desktop_entries@,
                    downloads_entries@,
                    mail_dir_size,
                    now,
                );
                &&& #[trigger] sorted_desc(s)
                &&& s.to_multiset() == qual.to_multiset()
                &&& (sum_model_sizes(qual) <= u64::MAX ==> item_models(r.items@) == s)
            },
{
    let mut collected: Vec<JunkItem> = Vec::new();
    proof {
        assert(item_models(collected@) + old_download_models(downloads_walk@, now)
            =~= old_download_models(downloads_walk@, now));
    }
    collect_old_downloads(&mut collected, downloads_walk, now);
    collect_screenshots(&mut collected, desktop_entries, p);
    match mail_dir_size {
        Some(sz) => {
            let is_mac = match p {
                Platform::MacOs => true,
                _ => false,
            };
            if is_mac && sz > MAIL_MIN_DIR_SIZE {
                let ghost pre = collected@;
                let mail_path = path_join(
                    home,
                    p.separator(),
                    &str_to_chars("Library/Containers/com.apple.mail/Data/Library/Mail Downloads"),
                );
                collected.push(
                    JunkItem { path: mail_path, size: sz, junk_type: str_to_chars("Mail Downloads") },
                );
                proof {
                    assert(item_models(collected@) =~= item_models(pre) + mail_models(
                        home@,
                        p,
                        mail_dir_size,
                    ));
                }
            } else {
                proof {
                    assert(item_models(collected@) + mail_models(home@, p, mail_dir_size)
                        =~= item_models(collected@));
                }
            }
        },
        None => {
            proof {
                assert(item_models(collected@) + mail_models(home@, p, mail_dir_size)
                    =~= item_models(collected@));
            }
        },
    }
    collect_installers(&mut collected, downloads_entries, p);
    proof {
        assert(item_models(collected@) == spec_hoarding_qualifying(
            home@,
            p,
            downloads_walk@,
            desktop_entries@,
            downloads_entries@,
            mail_dir_size,
            now,
        ));
    }
    let node = assemble_node(JunkCategory::UserHoarding, collected, None);
    proof {
        let ghost qual = spec_hoarding_qualifying(
            home@,
            p,
            downloads_walk@,
            desktop_entries@,
            downloads_entries@,
            mail_dir_size,
            now,
        );
        let s = choose|s: Seq<ItemModel>|
            {
                &&& #[trigger] sorted_desc(s)
                &&& s.to_multiset() == qual.to_multiset()
                &&& (sum_model_sizes(qual) <= u64::MAX ==> item_models(node.items@) == s.take(
                    s.len() as int,
                ))
            };
        assert(s.take(s.len() as int) =~= s);
    }
    node
}

/// The weight of a run counted from its first element.
proof fn lemma_sum_first(s: Seq<JunkItem>)
    requires
        s.len() > 0,
    ensures
        sum_sizes(s) == s.first().size + sum_sizes(s.drop_first()),
    decreases s.len(),
{
    if s.len() == 1 {
        assert(s.drop_first() =~= Seq::<JunkItem>::empty());
        assert(s.drop_last() =~= Seq::<JunkItem>::empty());
    } else {
        lemma_sum_first(s.drop_last());
        assert(s.drop_last().first() == s.first());
        assert(s.drop_first().drop_last() =~= s.drop_last().drop_first());
        assert(sum_sizes(s.drop_first()) == sum_sizes(s.drop_first().drop_last())
            + s.drop_first().last().size);
        assert(s.drop_first().last() == s.last());
    }
}

} // verus!
