//! Laws of results: what is returned is what its value says.
use vstd::prelude::*;

use crate::boundary;
use crate::boundary::{ParsedUrl, ParsedUrlView};
use crate::config::{
    Config, ConfigError, ConfigErrorView, ConfigView, ModelMapError, ModelMapErrorView,
};
use crate::endpoint;
use crate::endpoint::{BaseUrl, BaseUrlView, UrlError, UrlErrorView};
use crate::lists;
use crate::name_map::NameMap;
use crate::overrides;
use crate::routing;
use crate::routing::{ResolvedRoute, RouteView};
use crate::sources;
use crate::sources::{FileConfig, FileView};
use crate::text;

verus! {

/// The outcome of a URL is the URL or the refusal that is returned.
pub proof fn outcomes_of_urls(
    url: String,
    base: BaseUrl,
    urls: Vec<String>,
    error: UrlError,
)
    ensures
        endpoint::url_outcome(Ok(url)) == Ok::<Seq<char>, UrlErrorView>(url@),
        endpoint::url_outcome(Err(error)) == Err::<Seq<char>, UrlErrorView>(error@),
        endpoint::base_outcome(Ok(base)) == Ok::<BaseUrlView, UrlErrorView>(base@),
        endpoint::base_outcome(Err(error)) == Err::<BaseUrlView, UrlErrorView>(error@),
        lists::url_list_outcome(Ok(urls)) == Ok::<Seq<Seq<char>>, UrlErrorView>(
            text::texts(urls@),
        ),
        lists::url_list_outcome(Err(error)) == Err::<Seq<Seq<char>>, UrlErrorView>(error@),
{
}

/// The outcome of a route is the route or the refusal that is returned.
pub proof fn outcomes_of_routes(route: ResolvedRoute, error: UrlError)
    ensures
        routing::route_outcome(Ok(route)) == Ok::<RouteView, UrlErrorView>(route@),
        routing::route_outcome(Err(error)) == Err::<RouteView, UrlErrorView>(error@),
{
}

/// The outcome of a model map is the map or the refusal that is returned.
pub proof fn outcomes_of_model_maps(map: NameMap<String>, error: ModelMapError)
    ensures
        lists::model_map_outcome(Ok(map)) == Ok::<Seq<(Seq<char>, Seq<char>)>, ModelMapErrorView>(
            map@,
        ),
        lists::model_map_outcome(Err(error)) == Err::<
            Seq<(Seq<char>, Seq<char>)>,
            ModelMapErrorView,
        >(error@),
{
}

/// The outcome of a configuration is the configuration or the refusal that is
/// returned, and a file is there exactly where it is given.
pub proof fn outcomes_of_configurations(config: Config, error: ConfigError, file: FileConfig)
    ensures
        sources::config_outcome(Ok(config)) == Ok::<ConfigView, ConfigErrorView>(config@),
        sources::config_outcome(Err(error)) == Err::<ConfigView, ConfigErrorView>(error@),
        overrides::file_option(Some(file)) == Some(file@),
        overrides::file_option(None) == None::<FileView>,
{
}

/// The outcome of a parse is the URL or the message that is returned.
pub proof fn outcomes_of_parses(url: ParsedUrl, message: String)
    ensures
        boundary::url_result(Ok(url)) == Ok::<ParsedUrlView, Seq<char>>(url@),
        boundary::url_result(Err(message)) == Err::<ParsedUrlView, Seq<char>>(message@),
{
}

} // verus!
