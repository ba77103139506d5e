//! How the vectors of a text's tokens are made one, as the configuration of a
//! model says.

use vstd::prelude::*;

use crate::json;
use crate::json::{get_member, Json, JsonValue};
use crate::text;
use crate::text::{ascii_lowercase, same_text};

verus! {

/// One way of making the vectors of tokens one.
#[derive(Debug, Clone, Copy, PartialEq, Eq, Structural)]
pub enum StPoolingMode {
    Cls,
    Max,
    Mean,
    MeanSqrtLen,
    WeightedMean,
    LastToken,
}

/// The ways in which the vectors of tokens are made one, in order; the results
/// stand one after the other.
#[derive(Debug, PartialEq, Eq)]
pub struct StPoolingConfig {
    pub modes: Vec<StPoolingMode>,
}

/// The way that a name stands for; letters count without regard to ASCII case.
pub open spec fn named_mode(name: Seq<char>) -> Option<StPoolingMode> {
    let t = text::ascii_lower(name);
    if t == "cls"@ {
        Some(StPoolingMode::Cls)
    } else if t == "max"@ {
        Some(StPoolingMode::Max)
    } else if t == "mean"@ {
        Some(StPoolingMode::Mean)
    } else if t == "mean_sqrt_len_tokens"@ {
        Some(StPoolingMode::MeanSqrtLen)
    } else if t == "weightedmean"@ {
        Some(StPoolingMode::WeightedMean)
    } else if t == "lasttoken"@ {
        Some(StPoolingMode::LastToken)
    } else {
        None
    }
}

fn parse_mode_name(name: &str) -> (r: Option<StPoolingMode>)
    ensures
        r == named_mode(name@),
{
    let lowered = ascii_lowercase(name);
    let t = lowered.as_str();
    if same_text(t, "cls") {
        Some(StPoolingMode::Cls)
    } else if same_text(t, "max") {
        Some(StPoolingMode::Max)
    } else if same_text(t, "mean") {
        Some(StPoolingMode::Mean)
    } else if same_text(t, "mean_sqrt_len_tokens") {
        Some(StPoolingMode::MeanSqrtLen)
    } else if same_text(t, "weightedmean") {
        Some(StPoolingMode::WeightedMean)
    } else if same_text(t, "lasttoken") {
        Some(StPoolingMode::LastToken)
    } else {
        None
    }
}

/// The ways that the texts of a list stand for.
pub open spec fn listed_modes(v: Seq<Json>) -> Seq<StPoolingMode>
    decreases v.len(),
{
    if v.len() == 0 {
        Seq::empty()
    } else {
        let rest = listed_modes(v.drop_last());
        match v.last() {
            Json::Text(s) => match named_mode(s) {
                Some(m) => rest.push(m),
                None => rest,
            },
            _ => rest,
        }
    }
}

/// Whether one of the values is a text.
pub open spec fn has_text(v: Seq<Json>) -> bool {
    exists|i: int| 0 <= i < v.len() && #[trigger] v[i] is Text
}

/// Ways, or the mean where there are none.
pub open spec fn or_mean(modes: Seq<StPoolingMode>) -> Seq<StPoolingMode> {
    if modes.len() == 0 {
        seq![StPoolingMode::Mean]
    } else {
        modes
    }
}

/// Whether an object says yes under a key.
pub open spec fn says_yes(m: Seq<(Seq<char>, Json)>, key: Seq<char>) -> bool {
    json::member(m, key) == Some(Json::Bool(true))
}

/// The keys under which ways are switched on one by one, in the order of their
/// results.
pub open spec fn switches() -> Seq<(Seq<char>, StPoolingMode)> {
    seq![
        ("pooling_mode_cls_token"@, StPoolingMode::Cls),
        ("pooling_mode_max_tokens"@, StPoolingMode::Max),
        ("pooling_mode_mean_tokens"@, StPoolingMode::Mean),
        ("pooling_mode_mean_sqrt_len_tokens"@, StPoolingMode::MeanSqrtLen),
        ("pooling_mode_weightedmean_tokens"@, StPoolingMode::WeightedMean),
        ("pooling_mode_lasttoken"@, StPoolingMode::LastToken),
    ]
}

/// The ways that are switched on.
pub open spec fn switched_modes(
    m: Seq<(Seq<char>, Json)>,
    keys: Seq<(Seq<char>, StPoolingMode)>,
) -> Seq<StPoolingMode>
    decreases keys.len(),
{
    if keys.len() == 0 {
        Seq::empty()
    } else {
        let rest = switched_modes(m, keys.drop_last());
        if says_yes(m, keys.last().0) {
            rest.push(keys.last().1)
        } else {
            rest
        }
    }
}

/// The members of a value, if it is an object.
pub open spec fn members_of(v: Json) -> Seq<(Seq<char>, Json)> {
    match v {
        Json::Object(m) => m,
        _ => Seq::empty(),
    }
}

/// The ways that a model's configuration names: by one name, by a list of
/// names, or by switches.
pub open spec fn configured_modes(v: Json) -> Seq<StPoolingMode> {
    let m = members_of(v);
    match json::member(m, "pooling_mode"@) {
        Some(Json::Text(s)) => or_mean(listed_modes(seq![Json::Text(s)])),
        Some(Json::Array(a)) => if has_text(a) {
            or_mean(listed_modes(a))
        } else {
            or_mean(switched_modes(m, switches()))
        },
        _ => or_mean(switched_modes(m, switches())),
    }
}

fn switch(
    modes: &mut Vec<StPoolingMode>,
    m: &Vec<(String, JsonValue)>,
    key: &str,
    mode: StPoolingMode,
)
    ensures
        final(modes)@ == (if says_yes(json::members(m@), key@) {
            old(modes)@.push(mode)
        } else {
            old(modes)@
        }),
{
    if let Some(v) = get_member(m, key) {
        if let JsonValue::Bool(b) = v {
            if *b {
                modes.push(mode);
            }
        }
    }
}

impl StPoolingConfig {
    pub fn mean_only() -> (r: Self)
        ensures
            r.modes@ == seq![StPoolingMode::Mean],
    {
        let modes = vec![StPoolingMode::Mean];
        assert(modes@ =~= seq![StPoolingMode::Mean]);
        StPoolingConfig { modes }
    }

    pub fn cls_only() -> (r: Self)
        ensures
            r.modes@ == seq![StPoolingMode::Cls],
    {
        let modes = vec![StPoolingMode::Cls];
        assert(modes@ =~= seq![StPoolingMode::Cls]);
        StPoolingConfig { modes }
    }

    fn from_modes(modes: Vec<StPoolingMode>) -> (r: Self)
        ensures
            r.modes@ == or_mean(modes@),
    {
        if modes.len() == 0 {
            Self::mean_only()
        } else {
            StPoolingConfig { modes }
        }
    }

    fn from_switches(m: &Vec<(String, JsonValue)>) -> (r: Self)
        ensures
            r.modes@ == or_mean(switched_modes(json::members(m@), switches())),
    {
        let ghost members = json::members(m@);
        let ghost keys = switches();
        let mut modes: Vec<StPoolingMode> = Vec::new();
        proof {
            assert(keys.take(0) =~= Seq::empty());
            assert(keys.take(1).drop_last() =~= keys.take(0));
            assert(keys.take(2).drop_last() =~= keys.take(1));
            assert(keys.take(3).drop_last() =~= keys.take(2));
            assert(keys.take(4).drop_last() =~= keys.take(3));
            assert(keys.take(5).drop_last() =~= keys.take(4));
            assert(keys.take(6).drop_last() =~= keys.take(5));
            assert(keys.take(6) =~= keys);
        }
        assert(modes@ =~= switched_modes(members, keys.take(0)));
        switch(&mut modes, m, "pooling_mode_cls_token", StPoolingMode::Cls);
        assert(modes@ == switched_modes(members, keys.take(1)));
        switch(&mut modes, m, "pooling_mode_max_tokens", StPoolingMode::Max);
        assert(modes@ == switched_modes(members, keys.take(2)));
        switch(&mut modes, m, "pooling_mode_mean_tokens", StPoolingMode::Mean);
        assert(modes@ == switched_modes(members, keys.take(3)));
        switch(&mut modes, m, "pooling_mode_mean_sqrt_len_tokens", StPoolingMode::MeanSqrtLen);
        assert(modes@ == switched_modes(members, keys.take(4)));
        switch(&mut modes, m, "pooling_mode_weightedmean_tokens", StPoolingMode::WeightedMean);
        assert(modes@ == switched_modes(members, keys.take(5)));
        switch(&mut modes, m, "pooling_mode_lasttoken", StPoolingMode::LastToken);
        assert(modes@ == switched_modes(members, keys.take(6)));
        Self::from_modes(modes)
    }

    /// Reads the configuration of a model.
    pub fn from_json_value(value: &JsonValue) -> (r: Self)
        ensures
            r.modes@ == configured_modes(value@),
    {
        let empty: Vec<(String, JsonValue)> = Vec::new();
        assert(json::members(empty@) =~= Seq::empty());
        let m = match value {
            JsonValue::Object(m) => {
                proof {
                    JsonValue::object_view(*m);
                }
                m
            },
            _ => &empty,
        };
        assert(json::members(m@) == members_of(value@));
        if let Some(mode) = get_member(m, "pooling_mode") {
            if let JsonValue::Text(s) = mode {
                let mut modes: Vec<StPoolingMode> = Vec::new();
                if let Some(named) = parse_mode_name(s.as_str()) {
                    modes.push(named);
                }
                proof {
                    let one = seq![Json::Text(s@)];
                    assert(one.drop_last() =~= Seq::empty());
                    assert(one.last() == Json::Text(s@));
                    assert(listed_modes(one.drop_last()) =~= Seq::empty());
                    assert(modes@ =~= listed_modes(one));
                }
                return Self::from_modes(modes);
            }
            if let JsonValue::Array(items) = mode {
                let ghost all = json::values(items@);
                proof {
                    JsonValue::array_view(*items);
                    assert(all.take(0) =~= Seq::empty());
                }
                let mut modes: Vec<StPoolingMode> = Vec::new();
                let mut named = false;
                let mut i: usize = 0;
                assert(modes@ =~= listed_modes(all.take(0)));
                while i < items.len()
                    invariant
                        i <= items@.len(),
                        all == json::values(items@),
                        modes@ == listed_modes(all.take(i as int)),
                        named == has_text(all.take(i as int)),
                    decreases items.len() - i,
                {
                    let ghost next = all.take(i as int + 1);
                    proof {
                        assert(next.drop_last() =~= all.take(i as int));
                        assert(next.last() == items@[i as int]@);
                        assert(next[i as int] == items@[i as int]@);
                        if has_text(all.take(i as int)) {
                            let k = choose|k: int|
                                0 <= k < i && #[trigger] all.take(i as int)[k] is Text;
                            assert(next[k] is Text);
                        }
                        if has_text(next) && !(next[i as int] is Text) {
                            let k = choose|k: int| 0 <= k < next.len() && #[trigger] next[k] is Text;
                            assert(all.take(i as int)[k] is Text);
                        }
                    }
                    if let JsonValue::Text(s) = &items[i] {
                        named = true;
                        if let Some(found) = parse_mode_name(s.as_str()) {
                            modes.push(found);
                        }
                    }
                    i += 1;
                }
                assert(all.take(all.len() as int) =~= all);
                if named {
                    return Self::from_modes(modes);
                }
            }
        }
        Self::from_switches(m)
    }

    /// The way for a model whose own configuration names none: by what its
    /// classifier does.
    pub fn for_classifier(config: &JsonValue) -> (r: Self)
        ensures
            r.modes@ == (if json::member(members_of(config@), "classifier_pooling"@) == Some(
                Json::Text("cls"@),
            ) {
                seq![StPoolingMode::Cls]
            } else {
                seq![StPoolingMode::Mean]
            }),
    {
        if let JsonValue::Object(m) = config {
            proof {
                JsonValue::object_view(*m);
            }
            if let Some(v) = get_member(m, "classifier_pooling") {
                if let JsonValue::Text(s) = v {
                    if same_text(s.as_str(), "cls") {
                        return Self::cls_only();
                    }
                }
            }
        }
        Self::mean_only()
    }
}

/// A model always has a way of making the vectors of tokens one.
pub proof fn some_mode_is_configured(v: Json)
    ensures
        configured_modes(v).len() > 0,
{
}

/// A mode is known by its name, in letters of any case.
pub proof fn modes_are_known_by_name(name: Seq<char>)
    ensures
        text::ascii_lower(name) == "cls"@ <==> named_mode(name) == Some(StPoolingMode::Cls),
        text::ascii_lower(name) == "max"@ <==> named_mode(name) == Some(StPoolingMode::Max),
        text::ascii_lower(name) == "mean"@ <==> named_mode(name) == Some(StPoolingMode::Mean),
        text::ascii_lower(name) == "mean_sqrt_len_tokens"@ <==> named_mode(name) == Some(
            StPoolingMode::MeanSqrtLen,
        ),
        text::ascii_lower(name) == "weightedmean"@ <==> named_mode(name) == Some(
            StPoolingMode::WeightedMean,
        ),
        text::ascii_lower(name) == "lasttoken"@ <==> named_mode(name) == Some(
            StPoolingMode::LastToken,
        ),
{
    reveal_strlit("cls");
    reveal_strlit("max");
    reveal_strlit("mean");
    reveal_strlit("mean_sqrt_len_tokens");
    reveal_strlit("weightedmean");
    reveal_strlit("lasttoken");
    assert("cls"@.len() == 3 && "max"@.len() == 3 && "mean"@.len() == 4
        && "mean_sqrt_len_tokens"@.len() == 20 && "weightedmean"@.len() == 12 && "lasttoken"@.len()
        == 9);
    assert("cls"@[0] != "max"@[0]);
}

/// One named mode is the only one; an unknown name means the mean.
pub proof fn a_named_mode_is_the_only_one(m: Seq<(Seq<char>, Json)>, s: Seq<char>)
    requires
        json::member(m, "pooling_mode"@) == Some(Json::Text(s)),
    ensures
        named_mode(s) matches Some(mode) ==> configured_modes(Json::Object(m)) == seq![mode],
        named_mode(s) is None ==> configured_modes(Json::Object(m)) == seq![StPoolingMode::Mean],
{
    let one = seq![Json::Text(s)];
    assert(one.drop_last() =~= Seq::empty());
    assert(listed_modes(one.drop_last()) =~= Seq::empty());
    if let Some(mode) = named_mode(s) {
        assert(listed_modes(one) =~= seq![mode]);
    } else {
        assert(listed_modes(one) =~= Seq::empty());
    }
}

/// Listed modes stand in the order of the list; what names none is left out.
pub proof fn listed_modes_stand_in_order(v: Seq<Json>, one: Json)
    ensures
        listed_modes(Seq::empty()) == Seq::<StPoolingMode>::empty(),
        match one {
            Json::Text(s) => match named_mode(s) {
                Some(mode) => listed_modes(v.push(one)) == listed_modes(v).push(mode),
                None => listed_modes(v.push(one)) == listed_modes(v),
            },
            _ => listed_modes(v.push(one)) == listed_modes(v),
        },
{
    assert(v.push(one).drop_last() =~= v);
}

/// Without a named mode a mode is on exactly if its switch is; with none on it is
/// the mean.
pub proof fn switches_turn_modes_on(m: Seq<(Seq<char>, Json)>, mode: StPoolingMode)
    requires
        json::member(m, "pooling_mode"@) is None,
    ensures
        ({
            let on = |key: Seq<char>| json::member(m, key) == Some(Json::Bool(true));
            let modes = switched_modes(m, switches());
            &&& modes.contains(StPoolingMode::Cls) <==> on("pooling_mode_cls_token"@)
            &&& modes.contains(StPoolingMode::Max) <==> on("pooling_mode_max_tokens"@)
            &&& modes.contains(StPoolingMode::Mean) <==> on("pooling_mode_mean_tokens"@)
            &&& modes.contains(StPoolingMode::MeanSqrtLen) <==> on(
                "pooling_mode_mean_sqrt_len_tokens"@,
            )
            &&& modes.contains(StPoolingMode::WeightedMean) <==> on(
                "pooling_mode_weightedmean_tokens"@,
            )
            &&& modes.contains(StPoolingMode::LastToken) <==> on("pooling_mode_lasttoken"@)
            &&& modes.len() > 0 ==> configured_modes(Json::Object(m)) == modes
            &&& modes.len() == 0 ==> configured_modes(Json::Object(m)) == seq![StPoolingMode::Mean]
        }),
{
    let s = switches();
    assert(s.len() == 6);
    lemma_switched(m, s, StPoolingMode::Cls);
    lemma_switched(m, s, StPoolingMode::Max);
    lemma_switched(m, s, StPoolingMode::Mean);
    lemma_switched(m, s, StPoolingMode::MeanSqrtLen);
    lemma_switched(m, s, StPoolingMode::WeightedMean);
    lemma_switched(m, s, StPoolingMode::LastToken);
    assert(s[0].1 is Cls && s[1].1 is Max && s[2].1 is Mean && s[3].1 is MeanSqrtLen && s[4].1
        is WeightedMean && s[5].1 is LastToken);
}

proof fn lemma_switched(
    m: Seq<(Seq<char>, Json)>,
    keys: Seq<(Seq<char>, StPoolingMode)>,
    mode: StPoolingMode,
)
    ensures
        switched_modes(m, keys).contains(mode) <==> exists|i: int|
            0 <= i < keys.len() && (#[trigger] keys[i]).1 == mode && says_yes(m, keys[i].0),
    decreases keys.len(),
{
    if keys.len() > 0 {
        let init = keys.drop_last();
        let rest = switched_modes(m, init);
        let all = switched_modes(m, keys);
        lemma_switched(m, init, mode);
        assert(forall|i: int| 0 <= i < init.len() ==> #[trigger] init[i] == keys[i]);
        assert(keys[keys.len() - 1] == keys.last());
        if all.contains(mode) {
            let k = choose|k: int| 0 <= k < all.len() && all[k] == mode;
            if k < rest.len() {
                assert(rest[k] == mode);
                let i = choose|i: int|
                    0 <= i < init.len() && (#[trigger] init[i]).1 == mode && says_yes(m, init[i].0);
                assert(keys[i].1 == mode);
            } else {
                assert(keys[keys.len() - 1].1 == mode);
            }
        }
        if exists|i: int|
            0 <= i < keys.len() && (#[trigger] keys[i]).1 == mode && says_yes(m, keys[i].0) {
            let i = choose|i: int|
                0 <= i < keys.len() && (#[trigger] keys[i]).1 == mode && says_yes(m, keys[i].0);
            if i < init.len() {
                assert(init[i].1 == mode);
                let k = choose|k: int| 0 <= k < rest.len() && rest[k] == mode;
                assert(all[k] == mode);
            } else {
                assert(all[rest.len() as int] == mode);
            }
        }
    }
}

} // verus!
