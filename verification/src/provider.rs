//! URLs that name a provider in the place of a host.
use crate::config::{
    views_of_refs, AppConfig, ConfigInput, ConfigProvider, SpecConfig, SpecInput, SpecProvider,
};
use crate::model::views;
use crate::requests::{PlaylistRequest, SpecRequest};
use crate::text::{find_char, from_chars, position_of, same_text, starts_with, to_chars};
use vstd::prelude::*;
use vstd::string::*;

verus! {

/// How a URL that names a provider begins.
pub const PROVIDER_SCHEME_PREFIX: &'static str = "provider://";

/// Why a URL that names a provider leads nowhere.
#[derive(Clone, Copy, PartialEq, Eq, Structural, Debug)]
pub enum ProviderError {
    /// There is no provider with that name.
    UnknownProvider,
    /// The provider has no URL in use.
    NoUrl,
}

/// Whether a URL names a provider.
pub open spec fn names_provider(url: Seq<char>) -> bool {
    PROVIDER_SCHEME_PREFIX@.is_prefix_of(url)
}

/// Where the name of the provider ends in what follows the prefix: at the first slash, or at the
/// end.
pub open spec fn name_end(rest: Seq<char>) -> int {
    match position_of(rest, '/', 0) {
        Some(at) => at,
        None => rest.len() as int,
    }
}

/// The name of the provider in a URL.
pub open spec fn provider_name(url: Seq<char>) -> Seq<char> {
    let rest = url.skip(PROVIDER_SCHEME_PREFIX@.len() as int);
    rest.take(name_end(rest))
}

/// What follows the name of the provider in a URL.
pub open spec fn provider_path(url: Seq<char>) -> Seq<char> {
    let rest = url.skip(PROVIDER_SCHEME_PREFIX@.len() as int);
    rest.skip(name_end(rest))
}

/// The first provider with this name.
pub open spec fn provider_by_name(providers: Seq<SpecProvider>, name: Seq<char>) -> Option<
    SpecProvider,
>
    decreases providers.len(),
{
    if providers.len() == 0 {
        None
    } else if providers[0].name == name {
        Some(providers[0])
    } else {
        provider_by_name(providers.skip(1), name)
    }
}

/// The provider that a URL names, among those of an input.
pub open spec fn resolving_provider(input: SpecInput, url: Seq<char>) -> Option<SpecProvider> {
    if names_provider(url) {
        provider_by_name(input.provider_configs, provider_name(url))
    } else {
        None
    }
}

/// A URL with the URL of the provider in the place of its name. A URL that names no provider
/// stays as it is.
pub open spec fn resolved_url(input: SpecInput, url: Seq<char>) -> Result<
    Seq<char>,
    ProviderError,
> {
    if !names_provider(url) {
        Ok(url)
    } else {
        match resolving_provider(input, url) {
            None => Err(ProviderError::UnknownProvider),
            Some(provider) => if 0 <= provider.current < provider.urls.len() {
                Ok(provider.urls[provider.current] + provider_path(url))
            } else {
                Err(ProviderError::NoUrl)
            },
        }
    }
}

/// A URL as an input resolves it; one that it cannot resolve stays as it is.
pub open spec fn url_with_input(input: SpecInput, url: Seq<char>) -> Seq<char> {
    match resolved_url(input, url) {
        Ok(resolved) => resolved,
        Err(_) => url,
    }
}

/// The inputs that have the provider that a URL names.
pub open spec fn resolving_inputs(inputs: Seq<SpecInput>, url: Seq<char>) -> Seq<SpecInput>
    decreases inputs.len(),
{
    if inputs.len() == 0 {
        Seq::empty()
    } else {
        let earlier = resolving_inputs(inputs.drop_last(), url);
        if resolving_provider(inputs.last(), url) is Some {
            earlier.push(inputs.last())
        } else {
            earlier
        }
    }
}

/// A URL as one of several inputs resolves it, if there is exactly one that can.
pub open spec fn url_with_inputs(inputs: Seq<SpecInput>, url: Seq<char>) -> Seq<char> {
    if resolving_inputs(inputs, url).len() == 1 {
        url_with_input(resolving_inputs(inputs, url)[0], url)
    } else {
        url
    }
}

/// The URL that a request asks for: resolved by the input that it names, or by the only input of
/// the target that can; otherwise as it is.
pub open spec fn url_for_request(config: SpecConfig, request: SpecRequest, url: Seq<char>) -> Seq<
    char,
> {
    if !names_provider(url) {
        url
    } else {
        match request {
            SpecRequest::Input(name) => match config.input(name) {
                Some(input) => url_with_input(input, url),
                None => url,
            },
            SpecRequest::Target(id) => match config.target(id) {
                Some(target) => match config.inputs_for_target(target.name) {
                    Some(inputs) => url_with_inputs(inputs, url),
                    None => url,
                },
                None => url,
            },
            SpecRequest::CustomXtream { .. } => url,
            SpecRequest::CustomM3u(_) => url,
        }
    }
}

/// The parts of a URL that names a provider: the name, and what follows it.
fn split_provider_url(url: &str) -> (parts: (String, String))
    requires
        names_provider(url@),
    ensures
        parts.0@ == provider_name(url@),
        parts.1@ == provider_path(url@),
{
    let prefix = to_chars(PROVIDER_SCHEME_PREFIX);
    let chars = to_chars(url);
    let start: usize = prefix.len();
    let ghost rest = url@.skip(start as int);
    let tail = from_chars(&chars, start, chars.len());
    let tail_chars = to_chars(tail.as_str());
    assert(tail_chars@ =~= rest);
    let end: usize = match find_char(&tail_chars, '/', 0) {
        Some(at) => at,
        None => tail_chars.len(),
    };
    let name = from_chars(&tail_chars, 0, end);
    let path = from_chars(&tail_chars, end, tail_chars.len());
    assert(name@ =~= provider_name(url@));
    assert(path@ =~= provider_path(url@));
    (name, path)
}

impl ConfigInput {
    /// The provider with this name.
    fn find_provider(&self, name: &str) -> (provider: Option<&ConfigProvider>)
        ensures
            match provider {
                Some(found) => provider_by_name(self@.provider_configs, name@) == Some(found@),
                None => provider_by_name(self@.provider_configs, name@) is None,
            },
    {
        let ghost all = views(self.provider_configs@);
        assert(all.skip(0) =~= all);
        for i in 0..self.provider_configs.len()
            invariant
                all == views(self.provider_configs@),
                provider_by_name(all, name@) == provider_by_name(all.skip(i as int), name@),
        {
            assert(all.skip(i as int)[0] == self.provider_configs@[i as int]@);
            assert(all.skip(i as int).skip(1) =~= all.skip(i + 1));
            if same_text(self.provider_configs[i].name.as_str(), name) {
                return Some(&self.provider_configs[i]);
            }
        }
        None
    }

    /// The provider that a URL names.
    pub fn get_resolve_provider(&self, url: &str) -> (provider: Option<&ConfigProvider>)
        ensures
            match provider {
                Some(found) => resolving_provider(self@, url@) == Some(found@),
                None => resolving_provider(self@, url@) is None,
            },
    {
        if !starts_with(url, PROVIDER_SCHEME_PREFIX) {
            return None;
        }
        let (name, _) = split_provider_url(url);
        self.find_provider(name.as_str())
    }

    /// Puts the URL of the provider in the place of its name.
    pub fn resolve_url(&self, url: &str) -> (resolved: Result<String, ProviderError>)
        ensures
            match resolved {
                Ok(text) => resolved_url(self@, url@) == Ok::<Seq<char>, ProviderError>(text@),
                Err(error) => resolved_url(self@, url@) == Err::<Seq<char>, ProviderError>(error),
            },
    {
        if !starts_with(url, PROVIDER_SCHEME_PREFIX) {
            return Ok(url.to_owned());
        }
        let (name, path) = split_provider_url(url);
        match self.find_provider(name.as_str()) {
            None => Err(ProviderError::UnknownProvider),
            Some(provider) => {
                if provider.current < provider.urls.len() {
                    let mut resolved = provider.urls[provider.current].clone();
                    resolved.append(path.as_str());
                    Ok(resolved)
                } else {
                    Err(ProviderError::NoUrl)
                }
            },
        }
    }
}

/// Resolves a URL by an input; one that it cannot resolve stays as it is.
pub fn resolve_provider_url_with_input(input: &ConfigInput, url: &str) -> (resolved: String)
    ensures
        resolved@ == url_with_input(input@, url@),
{
    match input.resolve_url(url) {
        Ok(resolved) => resolved,
        Err(_) => url.to_owned(),
    }
}

/// Resolves a URL by the only one of several inputs that can.
pub fn resolve_provider_url_with_inputs(inputs: &Vec<&ConfigInput>, url: &str) -> (resolved: String)
    ensures
        resolved@ == url_with_inputs(views_of_refs(inputs@), url@),
{
    let ghost all = views_of_refs(inputs@);
    let mut found: Option<usize> = None;
    for i in 0..inputs.len()
        invariant
            all == views_of_refs(inputs@),
            match found {
                Some(at) => at < i && resolving_inputs(all.take(i as int), url@) == seq![
                    all[at as int],
                ],
                None => resolving_inputs(all.take(i as int), url@).len() == 0,
            },
    {
        assert(all.take(i + 1).drop_last() =~= all.take(i as int));
        assert(all.take(i + 1).last() == inputs@[i as int]@);
        let ghost earlier = resolving_inputs(all.take(i as int), url@);
        if inputs[i].get_resolve_provider(url).is_some() {
            if found.is_some() {
                proof {
                    assert(resolving_inputs(all.take(i + 1), url@).len() == 2);
                    lemma_resolving_inputs_grow(all, url@, i + 1);
                }
                return url.to_owned();
            }
            found = Some(i);
            assert(earlier.push(all[i as int]) =~= seq![all[i as int]]);
        }
    }
    assert(all.take(all.len() as int) =~= all);
    match found {
        Some(at) => resolve_provider_url_with_input(inputs[at], url),
        None => url.to_owned(),
    }
}

proof fn lemma_resolving_inputs_grow(inputs: Seq<SpecInput>, url: Seq<char>, length: int)
    requires
        0 <= length <= inputs.len(),
    ensures
        resolving_inputs(inputs.take(length), url).len() <= resolving_inputs(inputs, url).len(),
    decreases inputs.len() - length,
{
    if length == inputs.len() {
        assert(inputs.take(length) =~= inputs);
    } else {
        lemma_resolving_inputs_grow(inputs, url, length + 1);
        assert(inputs.take(length + 1).drop_last() =~= inputs.take(length));
    }
}

/// Resolves the URL that a request asks for.
pub fn resolve_provider_url_for_request(
    app_config: &AppConfig,
    playlist_request: &PlaylistRequest,
    url: &str,
) -> (resolved: String)
    ensures
        resolved@ == url_for_request(app_config@, playlist_request@, url@),
{
    if !starts_with(url, PROVIDER_SCHEME_PREFIX) {
        return url.to_owned();
    }
    match playlist_request {
        PlaylistRequest::Input(name) => match app_config.get_input_by_name(name.as_str()) {
            Some(input) => resolve_provider_url_with_input(input, url),
            None => url.to_owned(),
        },
        PlaylistRequest::Target(id) => match app_config.get_target_by_id(*id) {
            Some(target) => match app_config.get_inputs_for_target(target.name.as_str()) {
                Some(inputs) => resolve_provider_url_with_inputs(&inputs, url),
                None => url.to_owned(),
            },
            None => url.to_owned(),
        },
        PlaylistRequest::CustomXtream(_) => url.to_owned(),
        PlaylistRequest::CustomM3u(_) => url.to_owned(),
    }
}

/// A URL that names no provider stays as it is, whatever is configured and whoever asks.
pub proof fn law_other_urls_stay(
    config: SpecConfig,
    request: SpecRequest,
    input: SpecInput,
    url: Seq<char>,
)
    requires
        !names_provider(url),
    ensures
        url_with_input(input, url) == url,
        url_for_request(config, request, url) == url,
{
}

/// A URL stays as it is if the playlist that asks for it is not configured.
pub proof fn law_custom_requests_resolve_nothing(
    config: SpecConfig,
    request: SpecRequest,
    url: Seq<char>,
)
    requires
        request is CustomXtream || request is CustomM3u,
    ensures
        url_for_request(config, request, url) == url,
{
}

proof fn lemma_no_position(text: Seq<char>, wanted: char, from: int)
    requires
        0 <= from,
        forall|k: int| from <= k < text.len() ==> text[k] != wanted,
    ensures
        position_of(text, wanted, from) is None,
    decreases text.len() - from,
{
    if from < text.len() {
        lemma_no_position(text, wanted, from + 1);
    }
}

proof fn lemma_first_position(text: Seq<char>, wanted: char, from: int, at: int)
    requires
        0 <= from <= at < text.len(),
        text[at] == wanted,
        forall|k: int| from <= k < at ==> text[k] != wanted,
    ensures
        position_of(text, wanted, from) == Some(at),
    decreases at - from,
{
    if from < at {
        lemma_first_position(text, wanted, from + 1, at);
    }
}

/// A URL made of the prefix, a name and a path has that name and that path.
pub proof fn law_parts_of_a_provider_url(name: Seq<char>, path: Seq<char>)
    requires
        !name.contains('/'),
        path.len() == 0 || path[0] == '/',
    ensures
        names_provider(PROVIDER_SCHEME_PREFIX@ + name + path),
        provider_name(PROVIDER_SCHEME_PREFIX@ + name + path) == name,
        provider_path(PROVIDER_SCHEME_PREFIX@ + name + path) == path,
{
    let prefix = PROVIDER_SCHEME_PREFIX@;
    let url = prefix + name + path;
    let rest = url.skip(prefix.len() as int);
    assert(prefix.is_prefix_of(url)) by {
        assert(url.subrange(0, prefix.len() as int) =~= prefix);
    }
    assert(rest =~= name + path);
    assert forall|k: int| 0 <= k < name.len() implies rest[k] != '/' by {
        assert(name[k] == rest[k]);
        assert(name.contains(name[k]));
    }
    if path.len() == 0 {
        lemma_no_position(rest, '/', 0);
    } else {
        assert(rest[name.len() as int] == path[0]);
        lemma_first_position(rest, '/', 0, name.len() as int);
    }
    assert(rest.take(name.len() as int) =~= name);
    assert(rest.skip(name.len() as int) =~= path);
}

/// A URL that names a provider of the input leads to the URL of that provider that is in use,
/// followed by the path.
pub proof fn law_provider_url_is_rewritten(
    input: SpecInput,
    provider: SpecProvider,
    name: Seq<char>,
    path: Seq<char>,
)
    requires
        !name.contains('/'),
        path.len() == 0 || path[0] == '/',
        provider_by_name(input.provider_configs, name) == Some(provider),
        0 <= provider.current < provider.urls.len(),
    ensures
        url_with_input(input, PROVIDER_SCHEME_PREFIX@ + name + path)
            == provider.urls[provider.current] + path,
{
    law_parts_of_a_provider_url(name, path);
}

/// A URL that names a provider that the input does not have stays as it is.
pub proof fn law_unknown_provider_stays(input: SpecInput, url: Seq<char>)
    requires
        names_provider(url),
        provider_by_name(input.provider_configs, provider_name(url)) is None,
    ensures
        url_with_input(input, url) == url,
        resolved_url(input, url) == Err::<Seq<char>, ProviderError>(
            ProviderError::UnknownProvider,
        ),
{
}

proof fn lemma_resolving_inputs_hold(inputs: Seq<SpecInput>, url: Seq<char>, i: int)
    requires
        0 <= i < inputs.len(),
        resolving_provider(inputs[i], url) is Some,
    ensures
        resolving_inputs(inputs, url).len() >= resolving_inputs(inputs.take(i), url).len() + 1,
{
    assert(inputs.take(i + 1).drop_last() =~= inputs.take(i));
    assert(inputs.take(i + 1).last() == inputs[i]);
    lemma_resolving_inputs_grow(inputs, url, i + 1);
}

/// A URL stays as it is if more than one input has the provider that it names.
pub proof fn law_ambiguous_url_stays(inputs: Seq<SpecInput>, url: Seq<char>, i: int, j: int)
    requires
        0 <= i < j < inputs.len(),
        resolving_provider(inputs[i], url) is Some,
        resolving_provider(inputs[j], url) is Some,
    ensures
        url_with_inputs(inputs, url) == url,
{
    lemma_resolving_inputs_hold(inputs.take(j), url, i);
    assert(inputs.take(j).take(i) =~= inputs.take(i));
    lemma_resolving_inputs_hold(inputs, url, j);
}

/// A URL is resolved by the only input that has the provider that it names.
pub proof fn law_only_input_resolves(inputs: Seq<SpecInput>, url: Seq<char>, i: int)
    requires
        0 <= i < inputs.len(),
        resolving_provider(inputs[i], url) is Some,
        forall|k: int|
            0 <= k < inputs.len() && k != i ==> resolving_provider(
                #[trigger] inputs[k],
                url,
            ) is None,
    ensures
        url_with_inputs(inputs, url) == url_with_input(inputs[i], url),
{
    lemma_only_resolving(inputs, url, i, inputs.len() as int);
    assert(inputs.take(inputs.len() as int) =~= inputs);
}

proof fn lemma_only_resolving(inputs: Seq<SpecInput>, url: Seq<char>, i: int, length: int)
    requires
        0 <= i < inputs.len(),
        0 <= length <= inputs.len(),
        resolving_provider(inputs[i], url) is Some,
        forall|k: int|
            0 <= k < inputs.len() && k != i ==> resolving_provider(
                #[trigger] inputs[k],
                url,
            ) is None,
    ensures
        resolving_inputs(inputs.take(length), url) == if i < length {
            seq![inputs[i]]
        } else {
            Seq::empty()
        },
    decreases length,
{
    if length > 0 {
        lemma_only_resolving(inputs, url, i, length - 1);
        assert(inputs.take(length).drop_last() =~= inputs.take(length - 1));
        assert(inputs.take(length).last() == inputs[length - 1]);
        assert(resolving_inputs(inputs.take(length), url) =~= if i < length {
            seq![inputs[i]]
        } else {
            Seq::empty()
        });
    } else {
        assert(resolving_inputs(inputs.take(length), url) =~= Seq::empty());
    }
}

} // verus!
