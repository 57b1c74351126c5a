use vstd::prelude::*;

use crate::text::same_text;
use crate::varg::arg_views;

verus! {

/// A schema migration of the timeline file, known by its name.
#[derive(Debug, Clone, Copy, PartialEq, Eq, Structural)]
pub enum Feature {
    /// The configuration table.
    Setup1,
    /// The content and card tables.
    Setup2,
    /// The tag and tag history tables.
    Tagging,
}

/// The name under which a feature is recorded as installed.
pub open spec fn feature_name(f: Feature) -> Seq<char> {
    match f {
        Feature::Setup1 => "setup1"@,
        Feature::Setup2 => "setup2"@,
        Feature::Tagging => "tag"@,
    }
}

/// Every feature, in the order of installation.
pub open spec fn all_features_spec() -> Seq<Feature> {
    seq![Feature::Setup1, Feature::Setup2, Feature::Tagging]
}

/// The features of `fs` whose names are not among `installed`, in order.
pub open spec fn missing_spec(fs: Seq<Feature>, installed: Seq<Seq<char>>) -> Seq<Feature>
    decreases fs.len(),
{
    if fs.len() == 0 {
        seq![]
    } else if installed.contains(feature_name(fs.last())) {
        missing_spec(fs.drop_last(), installed)
    } else {
        missing_spec(fs.drop_last(), installed).push(fs.last())
    }
}

impl Feature {
    /// The name under which the feature is recorded as installed.
    pub fn name(&self) -> (r: &'static str)
        ensures
            r@ == feature_name(*self),
    {
        match self {
            Feature::Setup1 => "setup1",
            Feature::Setup2 => "setup2",
            Feature::Tagging => "tag",
        }
    }
}

/// Every feature, in the order of installation.
pub fn all_features() -> (r: Vec<Feature>)
    ensures
        r@ == all_features_spec(),
{
    let r = vec![Feature::Setup1, Feature::Setup2, Feature::Tagging];
    assert(r@ =~= all_features_spec());
    r
}

/// The features not yet installed, in the order of installation: those
/// whose names are not among `installed`.
pub fn missing_features(installed: &Vec<String>) -> (r: Vec<Feature>)
    ensures
        r@ == missing_spec(all_features_spec(), arg_views(installed@)),
{
    let all = all_features();
    let mut missing: Vec<Feature> = Vec::new();
    let ghost names = arg_views(installed@);
    for i in 0..all.len()
        invariant
            all@ == all_features_spec(),
            names == arg_views(installed@),
            missing@ == missing_spec(all@.take(i as int), names),
    {
        let f = all[i];
        assert(all@.take(i + 1).drop_last() =~= all@.take(i as int));
        let name = f.name();
        let mut found = false;
        for k in 0..installed.len()
            invariant
                names == arg_views(installed@),
                found == exists|j: int| 0 <= j < k && names[j] == name@,
        {
            assert(names[k as int] == installed@[k as int]@);
            if same_text(installed[k].as_str(), name) {
                found = true;
            }
        }
        if !found {
            missing.push(f);
        }
    }
    assert(all@.take(all@.len() as int) =~= all@);
    missing
}

proof fn lemma_missing_covers(fs: Seq<Feature>, installed: Seq<Seq<char>>)
    ensures
        forall|i: int|
            0 <= i < fs.len() ==> installed.contains(feature_name(#[trigger] fs[i])) || missing_spec(
                fs,
                installed,
            ).contains(fs[i]),
    decreases fs.len(),
{
    if fs.len() > 0 {
        let p = fs.drop_last();
        lemma_missing_covers(p, installed);
        let m = missing_spec(fs, installed);
        assert forall|i: int| 0 <= i < fs.len() implies installed.contains(
            feature_name(#[trigger] fs[i]),
        ) || m.contains(fs[i]) by {
            if i < fs.len() - 1 {
                assert(fs[i] == p[i]);
                if !installed.contains(feature_name(fs[i])) {
                    let k = choose|k: int|
                        0 <= k < missing_spec(p, installed).len() && missing_spec(p, installed)[k]
                            == fs[i];
                    assert(m[k] == fs[i]);
                }
            } else if !installed.contains(feature_name(fs[i])) {
                assert(m[m.len() - 1] == fs[i]);
            }
        }
    }
}

proof fn lemma_missing_none(fs: Seq<Feature>, installed: Seq<Seq<char>>)
    requires
        forall|i: int| 0 <= i < fs.len() ==> installed.contains(feature_name(#[trigger] fs[i])),
    ensures
        missing_spec(fs, installed) == Seq::<Feature>::empty(),
    decreases fs.len(),
{
    if fs.len() > 0 {
        let p = fs.drop_last();
        assert forall|i: int| 0 <= i < p.len() implies installed.contains(
            feature_name(#[trigger] p[i]),
        ) by {
            assert(p[i] == fs[i]);
        }
        lemma_missing_none(p, installed);
        assert(installed.contains(feature_name(fs[fs.len() - 1])));
    }
}

/// Installing the missing features and then asking again finds none
/// missing: installation is idempotent.
pub proof fn lemma_install_idempotent(installed: Seq<Seq<char>>)
    ensures
        missing_spec(
            all_features_spec(),
            installed + missing_spec(all_features_spec(), installed).map_values(
                |f: Feature| feature_name(f),
            ),
        ) == Seq::<Feature>::empty(),
{
    let all = all_features_spec();
    let m = missing_spec(all, installed);
    let after = installed + m.map_values(|f: Feature| feature_name(f));
    lemma_missing_covers(all, installed);
    assert forall|i: int| 0 <= i < all.len() implies after.contains(
        feature_name(#[trigger] all[i]),
    ) by {
        if installed.contains(feature_name(all[i])) {
            let j = choose|j: int| 0 <= j < installed.len() && installed[j] == feature_name(all[i]);
            assert(after[j] == installed[j]);
        } else {
            let k = choose|k: int| 0 <= k < m.len() && m[k] == all[i];
            assert(after[installed.len() + k] == feature_name(all[i]));
        }
    }
    lemma_missing_none(all, after);
}

} // verus!
