//! A prefix tree of words, built by shared-prefix insertion.
//!
//! Leaves hold whole words; inner nodes hold shared prefixes. The multiset
//! of leaf words is the tree's contents, and `add` grows it by exactly the
//! inserted word.

use vstd::multiset::Multiset;
use vstd::prelude::*;
use vstd::string::StrSliceExecFns;

use crate::util::chars_vec;

verus! {

broadcast use vstd::std_specs::vec::axiom_vec_index_decreases;

/// A node: a text fragment, child nodes, and whether this node is a leaf
/// holding a whole word.
#[derive(Debug, PartialEq)]
#[verifier::ext_equal]
pub struct StringTree {
    children: Vec<StringTree>,
    text: String,
    leaf: bool,
}

/// The words held by the first `i` children of `t`.
pub open spec fn words_upto(t: StringTree, i: int) -> Multiset<Seq<char>>
    decreases t, i,
{
    if i <= 0 || i > t.spec_children().len() {
        Multiset::empty()
    } else {
        words_upto(t, i - 1).add(words(t.spec_children()[i - 1]))
    }
}

/// The multiset of whole words held in the tree's leaves.
pub open spec fn words(t: StringTree) -> Multiset<Seq<char>>
    decreases t,
{
    let own = if t.spec_leaf() {
        Multiset::singleton(t.spec_text())
    } else {
        Multiset::<Seq<char>>::empty()
    };
    own.add(words_upto(t, t.spec_children().len() as int))
}

/// The length of the longest common prefix of two character sequences.
pub open spec fn common_len(a: Seq<char>, b: Seq<char>) -> int
    decreases a.len(),
{
    if a.len() == 0 || b.len() == 0 || a[0] != b[0] {
        0
    } else {
        1 + common_len(a.drop_first(), b.drop_first())
    }
}

impl StringTree {
    pub closed spec fn spec_text(&self) -> Seq<char> {
        self.text@
    }

    pub closed spec fn spec_leaf(&self) -> bool {
        self.leaf
    }

    pub closed spec fn spec_children(&self) -> Seq<StringTree> {
        self.children@
    }

    pub fn new_node(text: &str, children: Vec<StringTree>) -> (r: Self)
        ensures
            r.spec_text() == text@,
            !r.spec_leaf(),
            r.spec_children() == children@,
    {
        StringTree { children, text: text.to_owned(), leaf: false }
    }

    pub fn new_leaf(text: String) -> (r: Self)
        ensures
            r.spec_text() == text@,
            r.spec_leaf(),
            r.spec_children().len() == 0,
            words(r) =~= Multiset::singleton(text@),
    {
        let r = StringTree { children: Vec::new(), text, leaf: true };
        proof {
            assert(words_upto(r, 0) =~= Multiset::<Seq<char>>::empty());
        }
        r
    }

    /// The longest common prefix of `str1` and `str2`, as a prefix of
    /// `str1`.
    pub fn common_str<'a>(str1: &'a str, str2: &str) -> (r: &'a str)
        ensures
            r@ =~= str1@.take(common_len(str1@, str2@)),
    {
        let a = chars_vec(str1);
        let b = chars_vec(str2);
        let n = if a.len() < b.len() {
            a.len()
        } else {
            b.len()
        };
        let mut i: usize = 0;
        while i < n && a[i] == b[i]
            invariant
                a@ =~= str1@,
                b@ =~= str2@,
                n == if a@.len() < b@.len() {
                    a@.len()
                } else {
                    b@.len()
                },
                i <= n,
                forall|j: int| 0 <= j < i ==> a@[j] == b@[j],
            decreases n - i,
        {
            i = i + 1;
        }
        proof {
            lemma_common_len_at(str1@, str2@, i as int);
        }
        str1.substring_char(0, i)
    }

    /// Re-roots a leaf: the node keeps `common` as its (non-leaf) text and
    /// its old word moves into a new child leaf; the held words do not
    /// change.
    pub fn split_leaf(&mut self, common: String)
        requires
            old(self).spec_leaf(),
        ensures
            !final(self).spec_leaf(),
            final(self).spec_text() == common@,
            words(*final(self)) =~= words(*old(self)),
    {
        self.leaf = false;
        let mut text = common;
        core::mem::swap(&mut text, &mut self.text);
        let ghost mid = *self;
        let child = StringTree::new_leaf(text);
        self.children.push(child);
        proof {
            lemma_words_push(mid, *self);
            assert(words(*old(self)) =~= Multiset::singleton(old(self).text@).add(
                words_upto(*old(self), old(self).children@.len() as int),
            ));
            lemma_words_upto_same(*old(self), mid, old(self).children@.len() as int);
        }
    }

    /// Inserts a word. The insertion succeeds exactly when this node's text
    /// is empty or shares more than `min_common` characters with the word;
    /// then the tree holds exactly one more copy of the word, and otherwise
    /// it is unchanged.
    #[verifier::loop_isolation(false)]
    pub fn add(&mut self, new_item: String, min_common: usize) -> (r: bool)
        ensures
            r == (old(self).spec_text().len() == 0 || common_len(
                old(self).spec_text(),
                new_item@,
            ) > min_common),
            r ==> words(*final(self)) =~= words(*old(self)).insert(new_item@),
            !r ==> *final(self) == *old(self),
            !old(self).spec_leaf() && old(self).spec_text().len() == 0
                ==> final(self).spec_text() == old(self).spec_text()
                && !final(self).spec_leaf(),
        decreases *old(self),
    {
        let common = Self::common_str(self.text.as_str(), new_item.as_str());
        let common_n = common.unicode_len();
        proof {
            lemma_common_len_bound(self.text@, new_item@);
        }
        if !(self.text.as_str().is_empty() || common_n > min_common) {
            return false;
        }
        let cn = self.children.len();
        let mut i: usize = 0;
        while i < cn
            invariant
                cn == self.children@.len(),
                i <= cn,
                *self == *old(self),
                common_n == common_len(old(self).spec_text(), new_item@),
            decreases cn - i,
        {
            // A child accepts the word exactly when its own text is empty
            // or shares more than this node's overlap with it.
            let accept = {
                let ct = &self.children[i];
                proof {
                    lemma_common_len_bound(ct.text@, new_item@);
                }
                ct.text.as_str().is_empty() || Self::common_str(
                    ct.text.as_str(),
                    new_item.as_str(),
                ).unicode_len() > common_n
            };
            if accept {
                let ghost before = *self;
                let child = &mut self.children[i];
                let done = child.add(new_item.clone(), common_n);
                proof {
                    assert(done);
                    lemma_words_update(before, *self, i as int, new_item@);
                }
                return true;
            }
            i = i + 1;
        }
        if self.leaf {
            let common_owned = common.to_owned();
            self.split_leaf(common_owned);
            let ghost mid = *self;
            self.children.push(StringTree::new_leaf(new_item));
            proof {
                lemma_words_push(mid, *self);
            }
            return true;
        }
        if common_n < self.text.as_str().unicode_len() {
            // Split this node: it keeps only the shared prefix and demotes
            // its old text and children into a child node, next to a new
            // leaf for the word.
            let ghost before = *self;
            let common_owned = common.to_owned();
            let mut text = common_owned;
            core::mem::swap(&mut text, &mut self.text);
            let mut old_children: Vec<StringTree> = Vec::new();
            core::mem::swap(&mut old_children, &mut self.children);
            let demoted = StringTree { children: old_children, text, leaf: false };
            proof {
                lemma_words_upto_same(demoted, before, before.children@.len() as int);
                assert(words(demoted) =~= words(before));
            }
            self.children.push(StringTree::new_leaf(new_item));
            self.children.push(demoted);
            proof {
                assert(words_upto(*self, 0) =~= Multiset::<Seq<char>>::empty());
                assert(words_upto(*self, 1) =~= words(self.children@[0]));
                assert(words_upto(*self, 2) =~= words_upto(*self, 1).add(words(self.children@[1])));
                assert(words(*self) =~= words(before).insert(new_item@));
            }
            return true;
        }
        let ghost mid = *self;
        self.children.push(StringTree::new_leaf(new_item));
        proof {
            lemma_words_push(mid, *self);
        }
        true
    }

    /// Builds a tree holding exactly the given words.
    #[verifier::loop_isolation(false)]
    pub fn from_iter(items: Vec<String>) -> (r: Self)
        ensures
            words(r) =~= items@.map_values(|s: String| s@).to_multiset(),
    {
        let mut root = Self::new_node("", Vec::new());
        proof {
            broadcast use vstd::seq_lib::group_to_multiset_ensures;

            reveal_strlit("");
            assert(words_upto(root, 0) =~= Multiset::<Seq<char>>::empty());
            assert(words(root) =~= Multiset::<Seq<char>>::empty());
            assert(items@.map_values(|s: String| s@).take(0) =~= Seq::<Seq<char>>::empty());
        }
        let ghost items0 = items@;
        let n = items.len();
        let mut rest = items;
        let mut i: usize = 0;
        while i < n
            invariant
                n == items0.len(),
                i <= n,
                rest@.len() == n - i,
                forall|j: int| 0 <= j < n - i ==> #[trigger] rest@[j] == items0[j + i],
                root.spec_text().len() == 0,
                !root.spec_leaf(),
                words(root) =~= items0.map_values(|s: String| s@).take(i as int).to_multiset(),
            decreases n - i,
        {
            let item = rest.remove(0);
            let added = root.add(item, 0);
            proof {
                broadcast use vstd::seq_lib::group_to_multiset_ensures;

                let mapped = items0.map_values(|s: String| s@);
                assert(mapped.take(i + 1).drop_last() =~= mapped.take(i as int));
                assert(mapped.take(i + 1) =~= mapped.take(i as int).push(mapped[i as int]));
            }
            i = i + 1;
        }
        proof {
            assert(items0.map_values(|s: String| s@).take(n as int) =~= items0.map_values(
                |s: String| s@,
            ));
        }
        root
    }
}

/// `common_len` is the index of the first mismatch.
proof fn lemma_common_len_at(a: Seq<char>, b: Seq<char>, i: int)
    requires
        0 <= i <= a.len(),
        i <= b.len(),
        forall|j: int| 0 <= j < i ==> a[j] == b[j],
        i == a.len() || i == b.len() || a[i] != b[i],
    ensures
        common_len(a, b) == i,
    decreases i,
{
    if i == 0 {
    } else {
        assert(a[0] == b[0]);
        assert forall|j: int| 0 <= j < i - 1 implies a.drop_first()[j] == b.drop_first()[j] by {
            assert(a.drop_first()[j] == a[j + 1] && b.drop_first()[j] == b[j + 1]);
        }
        assert(i - 1 == a.drop_first().len() || i - 1 == b.drop_first().len() || a.drop_first()[i
            - 1] != b.drop_first()[i - 1]);
        lemma_common_len_at(a.drop_first(), b.drop_first(), i - 1);
    }
}

proof fn lemma_common_len_bound(a: Seq<char>, b: Seq<char>)
    ensures
        0 <= common_len(a, b) <= a.len(),
        common_len(a, b) <= b.len(),
    decreases a.len(),
{
    if a.len() > 0 && b.len() > 0 && a[0] == b[0] {
        lemma_common_len_bound(a.drop_first(), b.drop_first());
    }
}

/// Children shared up to `i` contribute the same words.
proof fn lemma_words_upto_same(t1: StringTree, t2: StringTree, i: int)
    requires
        0 <= i <= t1.children@.len(),
        i <= t2.children@.len(),
        forall|j: int| 0 <= j < i ==> t1.children@[j] == t2.children@[j],
    ensures
        words_upto(t1, i) =~= words_upto(t2, i),
    decreases i,
{
    if i > 0 {
        lemma_words_upto_same(t1, t2, i - 1);
    }
}

/// Pushing a child adds exactly that child's words.
proof fn lemma_words_push(before: StringTree, after: StringTree)
    requires
        after.children@ == before.children@.push(after.children@.last()),
        after.children@.len() == before.children@.len() + 1,
        after.text@ == before.text@,
        after.leaf == before.leaf,
    ensures
        words(after) =~= words(before).add(words(after.children@.last())),
    decreases before.children@.len(),
{
    let n = before.children@.len() as int;
    lemma_words_upto_same(after, before, n);
    assert(words_upto(after, n + 1) =~= words_upto(after, n).add(words(after.children@[n])));
}

/// Updating one child so that its words gain `w` makes the whole tree's
/// words gain `w`.
proof fn lemma_words_update(before: StringTree, after: StringTree, i: int, w: Seq<char>)
    requires
        0 <= i < before.children@.len(),
        after.children@ == before.children@.update(i, after.children@[i]),
        after.children@.len() == before.children@.len(),
        after.text@ == before.text@,
        after.leaf == before.leaf,
        words(after.children@[i]) == words(before.children@[i]).insert(w),
    ensures
        words(after) =~= words(before).insert(w),
{
    let n = before.children@.len() as int;
    lemma_words_upto_update(before, after, i, w, n);
}

proof fn lemma_words_upto_update(before: StringTree, after: StringTree, i: int, w: Seq<char>, k: int)
    requires
        0 <= i < before.children@.len(),
        after.children@ == before.children@.update(i, after.children@[i]),
        after.children@.len() == before.children@.len(),
        words(after.children@[i]) == words(before.children@[i]).insert(w),
        i < k <= before.children@.len(),
    ensures
        words_upto(after, k) =~= words_upto(before, k).insert(w),
    decreases k,
{
    if k - 1 == i {
        lemma_words_upto_same(after, before, i);
    } else {
        assert(after.children@[k - 1] == before.children@[k - 1]);
        lemma_words_upto_update(before, after, i, w, k - 1);
    }
}

} // verus!
