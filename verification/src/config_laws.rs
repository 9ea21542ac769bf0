//! What holds of the lookups in what is configured.
use crate::config::{
    has_target, input_by_name, input_names_for_target, inputs_by_names, target_by_id,
    target_of_sources, SpecConfig, SpecInput, SpecSource, SpecTarget,
};
use vstd::prelude::*;

verus! {

/// An input is found by its name at its first place, and not at all exactly if no input has the
/// name.
pub proof fn law_input_is_found_by_name(inputs: Seq<SpecInput>, name: Seq<char>)
    ensures
        match input_by_name(inputs, name) {
            Some(input) => exists|i: int|
                0 <= i < inputs.len() && input == #[trigger] inputs[i] && input.name == name
                    && forall|k: int| 0 <= k < i ==> (#[trigger] inputs[k]).name != name,
            None => forall|k: int| 0 <= k < inputs.len() ==> (#[trigger] inputs[k]).name != name,
        },
    decreases inputs.len(),
{
    if inputs.len() > 0 {
        if inputs[0].name == name {
            assert(input_by_name(inputs, name) == Some(inputs[0]));
        } else {
            let rest = inputs.skip(1);
            law_input_is_found_by_name(rest, name);
            if input_by_name(rest, name) is Some {
                let input = input_by_name(rest, name)->0;
                let i = choose|i: int|
                    0 <= i < rest.len() && input == #[trigger] rest[i] && input.name == name
                        && forall|k: int| 0 <= k < i ==> (#[trigger] rest[k]).name != name;
                assert(inputs[i + 1] == input);
                assert forall|k: int| 0 <= k < i + 1 implies (#[trigger] inputs[k]).name
                    != name by {
                    if k > 0 {
                        assert(inputs[k] == rest[k - 1]);
                    }
                }
            } else {
                assert forall|k: int| 0 <= k < inputs.len() implies (#[trigger] inputs[k]).name
                    != name by {
                    if k > 0 {
                        assert(inputs[k] == rest[k - 1]);
                    }
                }
            }
        }
    }
}

/// A target of a source is found by its id at its first place, and not at all exactly if no target
/// has the id.
pub proof fn law_target_is_found_by_id(targets: Seq<SpecTarget>, id: u16)
    ensures
        match target_by_id(targets, id) {
            Some(target) => exists|i: int|
                0 <= i < targets.len() && target == #[trigger] targets[i] && target.id == id
                    && forall|k: int| 0 <= k < i ==> (#[trigger] targets[k]).id != id,
            None => forall|k: int| 0 <= k < targets.len() ==> (#[trigger] targets[k]).id != id,
        },
    decreases targets.len(),
{
    if targets.len() > 0 {
        if targets[0].id == id {
            assert(target_by_id(targets, id) == Some(targets[0]));
        } else {
            let rest = targets.skip(1);
            law_target_is_found_by_id(rest, id);
            if target_by_id(rest, id) is Some {
                let target = target_by_id(rest, id)->0;
                let i = choose|i: int|
                    0 <= i < rest.len() && target == #[trigger] rest[i] && target.id == id
                        && forall|k: int| 0 <= k < i ==> (#[trigger] rest[k]).id != id;
                assert(targets[i + 1] == target);
                assert forall|k: int| 0 <= k < i + 1 implies (#[trigger] targets[k]).id != id by {
                    if k > 0 {
                        assert(targets[k] == rest[k - 1]);
                    }
                }
            } else {
                assert forall|k: int| 0 <= k < targets.len() implies (#[trigger] targets[k]).id
                    != id by {
                    if k > 0 {
                        assert(targets[k] == rest[k - 1]);
                    }
                }
            }
        }
    }
}

/// Whether the `i`-th target of the `s`-th source has this id.
pub open spec fn has_id_at(sources: Seq<SpecSource>, s: int, i: int, id: u16) -> bool {
    0 <= s < sources.len() && 0 <= i < sources[s].targets.len() && sources[s].targets[i].id == id
}

/// A target is found by its id at its first place, source after source, and not at all exactly if
/// no target of any source has the id.
pub proof fn law_target_is_found_in_the_sources(config: SpecConfig, id: u16)
    ensures
        match config.target(id) {
            Some(target) => exists|s: int, i: int| #[trigger]
                has_id_at(config.sources, s, i, id) && target == config.sources[s].targets[i]
                    && forall|r: int, k: int|
                    (r < s || (r == s && k < i)) ==> !(#[trigger] has_id_at(
                        config.sources,
                        r,
                        k,
                        id,
                    )),
            None => forall|s: int, i: int| !(#[trigger] has_id_at(config.sources, s, i, id)),
        },
{
    lemma_target_of_sources(config.sources, id);
}

proof fn lemma_target_of_sources(sources: Seq<SpecSource>, id: u16)
    ensures
        match target_of_sources(sources, id) {
            Some(target) => exists|s: int, i: int| #[trigger]
                has_id_at(sources, s, i, id) && target == sources[s].targets[i] && forall|
                    r: int,
                    k: int,
                |
                    (r < s || (r == s && k < i)) ==> !(#[trigger] has_id_at(sources, r, k, id)),
            None => forall|s: int, i: int| !(#[trigger] has_id_at(sources, s, i, id)),
        },
    decreases sources.len(),
{
    if sources.len() > 0 {
        let targets = sources[0].targets;
        law_target_is_found_by_id(targets, id);
        if target_by_id(targets, id) is Some {
            let target = target_by_id(targets, id)->0;
            let i = choose|i: int|
                0 <= i < targets.len() && target == #[trigger] targets[i] && target.id == id
                    && forall|k: int| 0 <= k < i ==> (#[trigger] targets[k]).id != id;
            assert(has_id_at(sources, 0, i, id));
        } else {
            let rest = sources.skip(1);
            lemma_target_of_sources(rest, id);
            assert forall|s: int, i: int| s < rest.len() implies #[trigger] has_id_at(
                rest,
                s,
                i,
                id,
            ) == has_id_at(sources, s + 1, i, id) || s < 0 by {
                if 0 <= s {
                    assert(rest[s] == sources[s + 1]);
                }
            }
            assert forall|i: int| !(#[trigger] has_id_at(sources, 0, i, id)) by {
                if 0 <= i < targets.len() {
                    assert(targets[i].id != id);
                }
            }
            if target_of_sources(rest, id) is Some {
                let target = target_of_sources(rest, id)->0;
                let (s, i) = choose|s: int, i: int| #[trigger]
                    has_id_at(rest, s, i, id) && target == rest[s].targets[i] && forall|
                        r: int,
                        k: int,
                    |
                        (r < s || (r == s && k < i)) ==> !(#[trigger] has_id_at(rest, r, k, id));
                assert(rest[s] == sources[s + 1]);
                assert(has_id_at(sources, s + 1, i, id));
                assert forall|r: int, k: int|
                    (r < s + 1 || (r == s + 1 && k < i)) implies !(#[trigger] has_id_at(
                    sources,
                    r,
                    k,
                    id,
                )) by {
                    if r > 0 {
                        assert(rest[r - 1] == sources[r]);
                        assert(!has_id_at(rest, r - 1, k, id));
                    }
                }
            } else {
                assert forall|s: int, i: int| !(#[trigger] has_id_at(sources, s, i, id)) by {
                    if 0 < s < sources.len() {
                        assert(rest[s - 1] == sources[s]);
                        assert(!has_id_at(rest, s - 1, i, id));
                    }
                }
            }
        }
    }
}

/// A target is among others exactly if one of them has its name.
pub proof fn law_target_among_others(targets: Seq<SpecTarget>, name: Seq<char>)
    ensures
        has_target(targets, name) <==> exists|i: int|
            0 <= i < targets.len() && (#[trigger] targets[i]).name == name,
{
}

/// The inputs of a target are those that the first source names that has a target of that name;
/// there are none exactly if no source has one.
pub proof fn law_source_of_a_target(sources: Seq<SpecSource>, name: Seq<char>)
    ensures
        match input_names_for_target(sources, name) {
            Some(names) => exists|s: int|
                0 <= s < sources.len() && has_target((#[trigger] sources[s]).targets, name) && names
                    == sources[s].inputs && forall|r: int|
                    0 <= r < s ==> !has_target((#[trigger] sources[r]).targets, name),
            None => forall|r: int|
                0 <= r < sources.len() ==> !has_target((#[trigger] sources[r]).targets, name),
        },
    decreases sources.len(),
{
    if sources.len() > 0 {
        if has_target(sources[0].targets, name) {
            assert(input_names_for_target(sources, name) == Some(sources[0].inputs));
        } else {
            let rest = sources.skip(1);
            law_source_of_a_target(rest, name);
            if input_names_for_target(rest, name) is Some {
                let names = input_names_for_target(rest, name)->0;
                let s = choose|s: int|
                    0 <= s < rest.len() && has_target((#[trigger] rest[s]).targets, name) && names
                        == rest[s].inputs && forall|r: int|
                        0 <= r < s ==> !has_target((#[trigger] rest[r]).targets, name);
                assert(sources[s + 1] == rest[s]);
                assert forall|r: int| 0 <= r < s + 1 implies !has_target(
                    (#[trigger] sources[r]).targets,
                    name,
                ) by {
                    if r > 0 {
                        assert(sources[r] == rest[r - 1]);
                    }
                }
            } else {
                assert forall|r: int| 0 <= r < sources.len() implies !has_target(
                    (#[trigger] sources[r]).targets,
                    name,
                ) by {
                    if r > 0 {
                        assert(sources[r] == rest[r - 1]);
                    }
                }
            }
        }
    }
}

/// Names are looked up one by one, in their order: a name gives its input or nothing, and two lists
/// of names give the inputs of the one before those of the other.
pub proof fn law_inputs_are_looked_up_in_order(
    inputs: Seq<SpecInput>,
    name: Seq<char>,
    first: Seq<Seq<char>>,
    second: Seq<Seq<char>>,
)
    ensures
        inputs_by_names(inputs, seq![name]) == match input_by_name(inputs, name) {
            Some(input) => seq![input],
            None => Seq::empty(),
        },
        inputs_by_names(inputs, first + second) == inputs_by_names(inputs, first)
            + inputs_by_names(inputs, second),
    decreases second.len(),
{
    let one = seq![name];
    assert(one.drop_last() =~= Seq::<Seq<char>>::empty());
    assert(inputs_by_names(inputs, one.drop_last()) =~= Seq::<SpecInput>::empty());
    assert(inputs_by_names(inputs, one) =~= match input_by_name(inputs, name) {
        Some(input) => seq![input],
        None => Seq::empty(),
    });
    if second.len() == 0 {
        assert(first + second =~= first);
        assert(inputs_by_names(inputs, first) + Seq::<SpecInput>::empty() =~= inputs_by_names(
            inputs,
            first,
        ));
    } else {
        let shorter = second.drop_last();
        law_inputs_are_looked_up_in_order(inputs, name, first, shorter);
        assert((first + second).drop_last() =~= first + shorter);
        assert((first + second).last() == second.last());
        assert(inputs_by_names(inputs, first + second) =~= inputs_by_names(inputs, first)
            + inputs_by_names(inputs, second));
    }
}

/// The inputs of a target are the configured inputs with the names that its source gives.
pub proof fn law_inputs_of_a_target(config: SpecConfig, name: Seq<char>)
    ensures
        config.input(name) == input_by_name(config.inputs, name),
        config.inputs_for_target(name) is Some <==> input_names_for_target(
            config.sources,
            name,
        ) is Some,
        config.inputs_for_target(name) is Some ==> config.inputs_for_target(name)->0
            == inputs_by_names(config.inputs, input_names_for_target(config.sources, name)->0),
{
}

} // verus!
