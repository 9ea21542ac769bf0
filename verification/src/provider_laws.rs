//! What holds of URLs that name a provider.
use crate::config::{SpecConfig, SpecInput, SpecProvider};
use crate::provider::{
    law_parts_of_a_provider_url, name_end, names_provider, provider_by_name, provider_name,
    provider_path, resolved_url, resolving_inputs, resolving_provider, url_for_request,
    url_with_input, url_with_inputs, ProviderError, PROVIDER_SCHEME_PREFIX,
};
use crate::requests::SpecRequest;
use crate::text_laws::law_position_is_the_first;
use vstd::prelude::*;
use vstd::string::*;

verus! {

/// The lookup of a provider by name finds none exactly if no provider has that name; otherwise it
/// finds one that has it, and none before that one does.
pub proof fn law_provider_is_found_by_name(providers: Seq<SpecProvider>, name: Seq<char>)
    ensures
        match provider_by_name(providers, name) {
            Some(provider) => exists|i: int|
                0 <= i < providers.len() && provider == #[trigger] providers[i] && provider.name
                    == name && forall|k: int|
                    0 <= k < i ==> (#[trigger] providers[k]).name != name,
            None => forall|k: int|
                0 <= k < providers.len() ==> (#[trigger] providers[k]).name != name,
        },
    decreases providers.len(),
{
    if providers.len() > 0 {
        if providers[0].name == name {
            assert(provider_by_name(providers, name) == Some(providers[0]));
        } else {
            let rest = providers.skip(1);
            law_provider_is_found_by_name(rest, name);
            if provider_by_name(rest, name) is Some {
                let provider = provider_by_name(rest, name)->0;
                let i = choose|i: int|
                    0 <= i < rest.len() && provider == #[trigger] rest[i] && provider.name == name
                        && forall|k: int| 0 <= k < i ==> (#[trigger] rest[k]).name != name;
                assert(providers[i + 1] == provider);
                assert forall|k: int| 0 <= k < i + 1 implies (#[trigger] providers[k]).name
                    != name by {
                    if k > 0 {
                        assert(providers[k] == rest[k - 1]);
                    }
                }
            } else {
                assert forall|k: int| 0 <= k < providers.len() implies (
                #[trigger] providers[k]).name != name by {
                    if k > 0 {
                        assert(providers[k] == rest[k - 1]);
                    }
                }
            }
        }
    }
}

/// A URL names a provider exactly if it begins with the scheme of providers. It is then that
/// scheme, a name without a slash, and a path that is empty or begins with a slash.
pub proof fn law_url_of_a_provider(url: Seq<char>)
    ensures
        names_provider(url) <==> "provider://"@.is_prefix_of(url),
        names_provider(url) ==> url == "provider://"@ + provider_name(url) + provider_path(url),
        names_provider(url) ==> !provider_name(url).contains('/'),
        names_provider(url) ==> provider_path(url).len() == 0 || provider_path(url)[0] == '/',
{
    if names_provider(url) {
        let prefix = PROVIDER_SCHEME_PREFIX@;
        let rest = url.skip(prefix.len() as int);
        let end = name_end(rest);
        law_position_is_the_first(rest, '/', 0);
        assert(url =~= prefix + rest) by {
            assert(url.subrange(0, prefix.len() as int) =~= prefix);
        }
        assert(rest =~= rest.take(end) + rest.skip(end));
        assert(url =~= prefix + provider_name(url) + provider_path(url));
        assert forall|k: int| 0 <= k < end implies rest.take(end)[k] != '/' by {
            assert(rest.take(end)[k] == rest[k]);
        }
    }
}

/// A URL that names a provider leads to the URL of the first provider of that name that is in use,
/// followed by the path; it leads nowhere exactly if there is no such provider or if that provider
/// has no URL in use.
pub proof fn law_url_leads_to_the_provider(
    input: SpecInput,
    name: Seq<char>,
    path: Seq<char>,
    i: int,
)
    requires
        !name.contains('/'),
        path.len() == 0 || path[0] == '/',
        0 <= i < input.provider_configs.len(),
        input.provider_configs[i].name == name,
        forall|k: int| 0 <= k < i ==> (#[trigger] input.provider_configs[k]).name != name,
    ensures
        ({
            let url = "provider://"@ + name + path;
            let provider = input.provider_configs[i];
            let in_use = provider.current;
            &&& resolving_provider(input, url) == Some(provider)
            &&& 0 <= in_use < provider.urls.len() ==> resolved_url(input, url) == Ok::<
                Seq<char>,
                ProviderError,
            >(provider.urls[in_use] + path) && url_with_input(input, url)
                == provider.urls[in_use] + path
            &&& !(0 <= in_use < provider.urls.len()) ==> resolved_url(input, url) == Err::<
                Seq<char>,
                ProviderError,
            >(ProviderError::NoUrl) && url_with_input(input, url) == url
        }),
{
    law_parts_of_a_provider_url(name, path);
    law_provider_is_found_by_name(input.provider_configs, name);
    let found = provider_by_name(input.provider_configs, name);
    assert(found is Some);
    let provider = found->0;
    let at = choose|at: int|
        0 <= at < input.provider_configs.len() && provider == #[trigger] input.provider_configs[at]
            && provider.name == name && forall|k: int|
            0 <= k < at ==> (#[trigger] input.provider_configs[k]).name != name;
    assert(at == i) by {
        if at < i {
            assert(input.provider_configs[at].name != name);
        }
        if i < at {
            assert(input.provider_configs[i].name != name);
        }
    }
}

/// A URL that names a provider that no provider of the input is called leads nowhere.
pub proof fn law_url_of_no_provider(input: SpecInput, name: Seq<char>, path: Seq<char>)
    requires
        !name.contains('/'),
        path.len() == 0 || path[0] == '/',
        forall|k: int|
            0 <= k < input.provider_configs.len() ==> (#[trigger] input.provider_configs[k]).name
                != name,
    ensures
        ({
            let url = "provider://"@ + name + path;
            &&& resolving_provider(input, url) is None
            &&& resolved_url(input, url) == Err::<Seq<char>, ProviderError>(
                ProviderError::UnknownProvider,
            )
            &&& url_with_input(input, url) == url
        }),
{
    law_parts_of_a_provider_url(name, path);
    law_provider_is_found_by_name(input.provider_configs, name);
}

/// A request for an input is resolved by that input, and one for a target by the inputs of that
/// target. Without such an input or target, and without inputs, the URL stays as it is.
pub proof fn law_request_is_resolved_by_its_inputs(
    config: SpecConfig,
    name: Seq<char>,
    id: u16,
    url: Seq<char>,
)
    requires
        names_provider(url),
    ensures
        config.input(name) is Some ==> url_for_request(config, SpecRequest::Input(name), url)
            == url_with_input(config.input(name)->0, url),
        config.input(name) is None ==> url_for_request(config, SpecRequest::Input(name), url)
            == url,
        config.target(id) is None ==> url_for_request(config, SpecRequest::Target(id), url) == url,
        config.target(id) is Some && config.inputs_for_target(config.target(id)->0.name) is None
            ==> url_for_request(config, SpecRequest::Target(id), url) == url,
        config.target(id) is Some && config.inputs_for_target(config.target(id)->0.name) is Some
            ==> url_for_request(config, SpecRequest::Target(id), url) == url_with_inputs(
            config.inputs_for_target(config.target(id)->0.name)->0,
            url,
        ),
{
}

/// A URL stays as it is if none of the inputs has the provider that it names.
pub proof fn law_url_that_no_input_resolves_stays(inputs: Seq<SpecInput>, url: Seq<char>)
    requires
        forall|k: int|
            0 <= k < inputs.len() ==> resolving_provider(#[trigger] inputs[k], url) is None,
    ensures
        url_with_inputs(inputs, url) == url,
{
    lemma_none_resolves(inputs, url);
}

proof fn lemma_none_resolves(inputs: Seq<SpecInput>, url: Seq<char>)
    requires
        forall|k: int|
            0 <= k < inputs.len() ==> resolving_provider(#[trigger] inputs[k], url) is None,
    ensures
        resolving_inputs(inputs, url).len() == 0,
    decreases inputs.len(),
{
    if inputs.len() > 0 {
        let shorter = inputs.drop_last();
        assert forall|k: int| 0 <= k < shorter.len() implies resolving_provider(
            #[trigger] shorter[k],
            url,
        ) is None by {
            assert(shorter[k] == inputs[k]);
        }
        lemma_none_resolves(shorter, url);
        assert(inputs.last() == inputs[inputs.len() - 1]);
    }
}

} // verus!
