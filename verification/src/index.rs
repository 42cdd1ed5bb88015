//! The symbol index: a mapping from symbol name to the ordered sequence of
//! all symbols, at any nesting depth, sharing that name in the document.
//!
//! Duplicates are kept by design: the extractor does not deduplicate or
//! scope-check, so a name with several declarations has several entries, in
//! pre-order traversal order. Buckets are kept in order of first appearance.

use vstd::prelude::*;

use crate::symbols::{lemma_sym_models, sym_models, SymModel, Symbol};

verus! {

/// One name's bucket: every symbol of the document with that name, in
/// traversal order.
#[derive(Debug)]
pub struct Bucket {
    pub name: String,
    pub syms: Vec<Symbol>,
}

/// The mathematical model of a bucket.
#[verifier::ext_equal]
pub ghost struct BucketModel {
    pub name: Seq<char>,
    pub syms: Seq<SymModel>,
}

impl Bucket {
    pub open spec fn model(&self) -> BucketModel {
        BucketModel { name: self.name@, syms: sym_models(self.syms@) }
    }
}

pub open spec fn bucket_models(s: Seq<Bucket>) -> Seq<BucketModel> {
    s.map_values(|b: Bucket| b.model())
}

/// The bucket contents for `name`: the symbols of the first bucket carrying
/// that name, or the empty sequence if there is none.
pub open spec fn bucket_in(bs: Seq<BucketModel>, name: Seq<char>) -> Seq<SymModel>
    decreases bs.len(),
{
    if bs.len() == 0 {
        Seq::empty()
    } else if bs[0].name == name {
        bs[0].syms
    } else {
        bucket_in(bs.drop_first(), name)
    }
}

/// Appending one symbol to an index: it joins the first bucket carrying its
/// name, or opens a new bucket at the end.
pub open spec fn spec_insert(bs: Seq<BucketModel>, s: SymModel) -> Seq<BucketModel>
    decreases bs.len(),
{
    if bs.len() == 0 {
        seq![BucketModel { name: s.name, syms: seq![s] }]
    } else if bs[0].name == s.name {
        seq![BucketModel { name: bs[0].name, syms: bs[0].syms.push(s) }] + bs.drop_first()
    } else {
        seq![bs[0]] + spec_insert(bs.drop_first(), s)
    }
}

/// The index built from a flattened symbol sequence, symbol by symbol.
pub open spec fn index_of(flat: Seq<SymModel>) -> Seq<BucketModel>
    decreases flat.len(),
{
    if flat.len() == 0 {
        Seq::empty()
    } else {
        spec_insert(index_of(flat.drop_last()), flat.last())
    }
}

/// The subsequence of `flat` whose symbols are named `name`, in order.
pub open spec fn with_name(flat: Seq<SymModel>, name: Seq<char>) -> Seq<SymModel>
    decreases flat.len(),
{
    if flat.len() == 0 {
        Seq::empty()
    } else if flat.last().name == name {
        with_name(flat.drop_last(), name).push(flat.last())
    } else {
        with_name(flat.drop_last(), name)
    }
}

/// Appending a symbol touches exactly its own name's bucket contents.
pub proof fn lemma_bucket_insert(bs: Seq<BucketModel>, s: SymModel, name: Seq<char>)
    ensures
        bucket_in(spec_insert(bs, s), name) == if s.name == name {
            bucket_in(bs, name).push(s)
        } else {
            bucket_in(bs, name)
        },
    decreases bs.len(),
{
    if bs.len() == 0 {
        let r = spec_insert(bs, s);
        assert(r == seq![BucketModel { name: s.name, syms: seq![s] }]);
        if s.name == name {
            assert(bucket_in(r, name) == r[0].syms);
            assert(bucket_in(r, name) =~= bucket_in(bs, name).push(s));
        } else {
            assert(bucket_in(r, name) == bucket_in(r.drop_first(), name));
            assert(r.drop_first() =~= Seq::<BucketModel>::empty());
            assert(bucket_in(r, name) == Seq::<SymModel>::empty());
        }
    } else if bs[0].name == s.name {
        let r = seq![BucketModel { name: bs[0].name, syms: bs[0].syms.push(s) }] + bs.drop_first();
        assert(spec_insert(bs, s) == r);
        assert(r[0] == BucketModel { name: bs[0].name, syms: bs[0].syms.push(s) });
        assert(r.drop_first() =~= bs.drop_first());
        if name == s.name {
            assert(bucket_in(r, name) == bs[0].syms.push(s));
            assert(bucket_in(bs, name) == bs[0].syms);
        } else {
            assert(bucket_in(r, name) == bucket_in(r.drop_first(), name));
            assert(bucket_in(bs, name) == bucket_in(bs.drop_first(), name));
        }
    } else {
        lemma_bucket_insert(bs.drop_first(), s, name);
        let r = seq![bs[0]] + spec_insert(bs.drop_first(), s);
        assert(spec_insert(bs, s) == r);
        assert(r[0] == bs[0]);
        assert(r.drop_first() =~= spec_insert(bs.drop_first(), s));
        if name == bs[0].name {
            assert(bucket_in(r, name) == r[0].syms);
            assert(bucket_in(bs, name) == bs[0].syms);
        } else {
            assert(bucket_in(r, name) == bucket_in(r.drop_first(), name));
            assert(bucket_in(bs, name) == bucket_in(bs.drop_first(), name));
        }
    }
}

/// Law: for every name, the bucket of the index built from a flattened
/// symbol sequence holds exactly the symbols of that sequence carrying the
/// name, in the same order.
pub proof fn lemma_index_buckets(flat: Seq<SymModel>, name: Seq<char>)
    ensures
        bucket_in(index_of(flat), name) == with_name(flat, name),
    decreases flat.len(),
{
    if flat.len() > 0 {
        lemma_index_buckets(flat.drop_last(), name);
        lemma_bucket_insert(index_of(flat.drop_last()), flat.last(), name);
    }
}

/// The name-indexed symbol table of one document.
#[derive(Debug)]
pub struct SymbolIndex {
    pub buckets: Vec<Bucket>,
}

impl SymbolIndex {
    /// The model of the index: its buckets, in order of first appearance.
    pub open spec fn model(&self) -> Seq<BucketModel> {
        bucket_models(self.buckets@)
    }

    /// An empty index.
    pub fn new() -> (r: SymbolIndex)
        ensures
            r.model() == Seq::<BucketModel>::empty(),
    {
        let r = SymbolIndex { buckets: Vec::new() };
        proof {
            assert(r.model() =~= Seq::<BucketModel>::empty());
        }
        r
    }

    /// Appends one symbol to the index; see `spec_insert`.
    pub fn insert(&mut self, sym: Symbol)
        ensures
            final(self).model() == spec_insert(old(self).model(), sym.model()),
    {
        let ghost orig = self.model();
        let n_buckets = self.buckets.len();
        for i in 0..n_buckets
            invariant
                n_buckets == self.buckets@.len(),
                self.buckets@ == old(self).buckets@,
                forall|j: int| 0 <= j < i ==> (#[trigger] orig[j]).name != sym.model().name,
                orig == old(self).model(),
        {
            let hit = self.buckets[i].name == sym.name;
            proof {
                assert(orig[i as int] == self.buckets@[i as int].model());
            }
            if hit {
                let b = &mut self.buckets[i];
                let ghost bsyms = b.syms@;
                b.syms.push(sym);
                proof {
                    crate::symbols::lemma_sym_models_push(bsyms, sym);
                    lemma_spec_insert_at(orig, sym.model(), i as int);
                    assert(self.model() =~= orig.update(
                        i as int,
                        BucketModel {
                            name: orig[i as int].name,
                            syms: orig[i as int].syms.push(sym.model()),
                        },
                    ));
                }
                return ;
            }
        }
        let mut syms_vec: Vec<Symbol> = Vec::new();
        proof {
            assert(sym_models(syms_vec@.push(sym)).len() == 1) by {
                lemma_sym_models(syms_vec@.push(sym));
            }
        }
        let ghost before = syms_vec@;
        syms_vec.push(sym);
        let b = Bucket { name: syms_vec[0].name.clone(), syms: syms_vec };
        proof {
            crate::symbols::lemma_sym_models_push(before, sym);
            assert(sym_models(b.syms@) =~= seq![sym.model()]);
            lemma_spec_insert_missing(orig, sym.model());
        }
        self.buckets.push(b);
        proof {
            assert(self.model() =~= orig.push(
                BucketModel { name: sym.model().name, syms: seq![sym.model()] },
            ));
        }
    }

    /// Builds the index of a flattened symbol sequence, in order.
    pub fn from_symbols(flat: Vec<Symbol>) -> (r: SymbolIndex)
        ensures
            r.model() == index_of(sym_models(flat@)),
            forall|name: Seq<char>|
                #[trigger] bucket_in(r.model(), name) == with_name(sym_models(flat@), name),
    {
        proof {
            lemma_sym_models(flat@);
        }
        let mut r = SymbolIndex::new();
        let n_flat = flat.len();
        let mut rest = flat;
        let ghost all = sym_models(rest@);
        let mut i: usize = 0;
        while i < n_flat
            invariant
                n_flat == rest@.len() + i,
                all.len() == rest@.len() + i,
                sym_models(rest@) =~= all.skip(i as int),
                r.model() == index_of(all.take(i as int)),
            decreases n_flat - i,
        {
            proof {
                lemma_sym_models(rest@);
                assert(sym_models(rest@)[0] == rest@[0].model());
            }
            let sym = rest.remove(0);
            proof {
                lemma_sym_models(rest@);
                assert(sym_models(rest@) =~= all.skip(i + 1)) by {
                    lemma_sym_models(rest@);
                    assert forall|j: int| 0 <= j < rest@.len() implies sym_models(rest@)[j]
                        == all.skip(i + 1)[j] by {
                        assert(sym_models(rest@)[j] == rest@[j].model());
                    }
                };
                assert(sym.model() == all[i as int]);
            }
            r.insert(sym);
            proof {
                assert(all.take(i + 1).drop_last() =~= all.take(i as int));
                assert(all.take(i + 1).last() == all[i as int]);
            }
            i = i + 1;
        }
        proof {
            assert(all.take(n_flat as int) =~= all);
            assert forall|name: Seq<char>| #[trigger] bucket_in(r.model(), name) == with_name(
                all,
                name,
            ) by {
                lemma_index_buckets(all, name);
            }
        }
        r
    }

    /// Looks a name up; the result is the bucket carrying it, if any.
    pub fn get<'a>(&'a self, name: &String) -> (r: Option<&'a Bucket>)
        ensures
            match r {
                Some(b) => b.model().syms == bucket_in(self.model(), name@) && b.model().name
                    == name@,
                None => bucket_in(self.model(), name@) == Seq::<SymModel>::empty(),
            },
    {
        let n_buckets = self.buckets.len();
        for i in 0..n_buckets
            invariant
                n_buckets == self.buckets@.len(),
                forall|j: int|
                    0 <= j < i ==> (#[trigger] bucket_models(self.buckets@)[j]).name != name@,
        {
            let hit = self.buckets[i].name == *name;
            proof {
                assert(bucket_models(self.buckets@)[i as int] == self.buckets@[i as int].model());
            }
            if hit {
                proof {
                    lemma_bucket_in_prefix(bucket_models(self.buckets@), name@, i as int);
                }
                return Some(&self.buckets[i]);
            }
        }
        proof {
            lemma_bucket_in_prefix(bucket_models(self.buckets@), name@, n_buckets as int);
        }
        None
    }
}

/// Inserting a symbol whose bucket is at position `i` updates that bucket in
/// place.
proof fn lemma_spec_insert_at(bs: Seq<BucketModel>, s: SymModel, i: int)
    requires
        0 <= i < bs.len(),
        forall|j: int| 0 <= j < i ==> (#[trigger] bs[j]).name != s.name,
        bs[i].name == s.name,
    ensures
        spec_insert(bs, s) == bs.update(
            i,
            BucketModel { name: bs[i].name, syms: bs[i].syms.push(s) },
        ),
    decreases i,
{
    if i == 0 {
        assert(spec_insert(bs, s) =~= bs.update(
            0,
            BucketModel { name: bs[0].name, syms: bs[0].syms.push(s) },
        ));
    } else {
        assert(bs.drop_first()[i - 1].name == s.name);
        lemma_spec_insert_at(bs.drop_first(), s, i - 1);
        assert(spec_insert(bs, s) =~= bs.update(
            i,
            BucketModel { name: bs[i].name, syms: bs[i].syms.push(s) },
        ));
    }
}

/// Inserting a symbol no bucket is named for appends a fresh bucket.
proof fn lemma_spec_insert_missing(bs: Seq<BucketModel>, s: SymModel)
    requires
        forall|j: int| 0 <= j < bs.len() ==> (#[trigger] bs[j]).name != s.name,
    ensures
        spec_insert(bs, s) == bs.push(BucketModel { name: s.name, syms: seq![s] }),
    decreases bs.len(),
{
    if bs.len() == 0 {
        assert(spec_insert(bs, s) =~= bs.push(BucketModel { name: s.name, syms: seq![s] }));
    } else {
        lemma_spec_insert_missing(bs.drop_first(), s);
        assert(spec_insert(bs, s) =~= bs.push(BucketModel { name: s.name, syms: seq![s] }));
    }
}

/// Lookup skips buckets with other names.
proof fn lemma_bucket_in_prefix(bs: Seq<BucketModel>, name: Seq<char>, i: int)
    requires
        0 <= i <= bs.len(),
        forall|j: int| 0 <= j < i ==> (#[trigger] bs[j]).name != name,
    ensures
        bucket_in(bs, name) == bucket_in(bs.skip(i), name),
    decreases i,
{
    if i == 0 {
        assert(bs.skip(0) =~= bs);
    } else {
        lemma_bucket_in_prefix(bs, name, i - 1);
        assert(bs.skip(i - 1).len() > 0);
        assert(bs.skip(i - 1)[0] == bs[i - 1]);
        assert(bucket_in(bs.skip(i - 1), name) == bucket_in(bs.skip(i - 1).drop_first(), name));
        assert(bs.skip(i - 1).drop_first() =~= bs.skip(i));
    }
}

} // verus!
