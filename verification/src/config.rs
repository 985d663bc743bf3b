//! Configuration: files, environment and defaults, layered by priority.

use crate::text::{option_text, string_texts};
use vstd::prelude::*;

verus! {

/// The base URL where no layer sets one.
pub const DEFAULT_BASE_URL: &'static str = "https://api.openai.com/v1";

/// The model where no layer sets one.
pub const DEFAULT_MODEL: &'static str = "gpt-4o-mini";

/// The values that one layer sets: a configuration file, or the environment.
#[derive(Debug)]
pub struct ConfigFile {
    pub api_key: Option<String>,
    pub base_url: Option<String>,
    pub model: Option<String>,
}

/// The configuration in force.
#[derive(Debug)]
pub struct Config {
    pub api_key: Option<String>,
    pub base_url: String,
    pub model: String,
}

/// What became of a configuration file.
#[derive(Debug)]
pub enum FileOutcome {
    /// There is no such file.
    Missing,
    /// It could not be read, and why.
    Unreadable(String),
    /// It is not a TOML configuration, and why.
    Invalid(String),
    /// The values it sets.
    Parsed(ConfigFile),
}

/// A configuration file and what became of it.
#[derive(Debug)]
pub struct ConfigSource {
    pub path: String,
    pub outcome: FileOutcome,
}

/// The configuration in force and the files that it came from, lowest priority
/// first.
#[derive(Debug)]
pub struct ConfigResult {
    pub config: Config,
    pub loaded_paths: Vec<String>,
}

/// The texts of a [`ConfigFile`].
pub struct ConfigFileView {
    pub api_key: Option<Seq<char>>,
    pub base_url: Option<Seq<char>>,
    pub model: Option<Seq<char>>,
}

/// The texts of a [`Config`].
pub struct ConfigView {
    pub api_key: Option<Seq<char>>,
    pub base_url: Seq<char>,
    pub model: Seq<char>,
}

/// The texts of a [`FileOutcome`].
pub enum FileOutcomeView {
    Missing,
    Unreadable(Seq<char>),
    Invalid(Seq<char>),
    Parsed(ConfigFileView),
}

/// The texts of a [`ConfigSource`].
pub struct ConfigSourceView {
    pub path: Seq<char>,
    pub outcome: FileOutcomeView,
}

/// The texts of a [`ConfigResult`].
pub struct ConfigResultView {
    pub config: ConfigView,
    pub loaded_paths: Seq<Seq<char>>,
}

impl View for ConfigFile {
    type V = ConfigFileView;

    open spec fn view(&self) -> ConfigFileView {
        ConfigFileView {
            api_key: option_text(self.api_key),
            base_url: option_text(self.base_url),
            model: option_text(self.model),
        }
    }
}

impl View for Config {
    type V = ConfigView;

    open spec fn view(&self) -> ConfigView {
        ConfigView {
            api_key: option_text(self.api_key),
            base_url: self.base_url@,
            model: self.model@,
        }
    }
}

impl View for FileOutcome {
    type V = FileOutcomeView;

    open spec fn view(&self) -> FileOutcomeView {
        match *self {
            FileOutcome::Missing => FileOutcomeView::Missing,
            FileOutcome::Unreadable(reason) => FileOutcomeView::Unreadable(reason@),
            FileOutcome::Invalid(reason) => FileOutcomeView::Invalid(reason@),
            FileOutcome::Parsed(file) => FileOutcomeView::Parsed(file@),
        }
    }
}

impl View for ConfigSource {
    type V = ConfigSourceView;

    open spec fn view(&self) -> ConfigSourceView {
        ConfigSourceView { path: self.path@, outcome: self.outcome@ }
    }
}

impl View for ConfigResult {
    type V = ConfigResultView;

    open spec fn view(&self) -> ConfigResultView {
        ConfigResultView {
            config: self.config@,
            loaded_paths: string_texts(self.loaded_paths@),
        }
    }
}

/// The views of a sequence of sources.
pub open spec fn source_views(sources: Seq<ConfigSource>) -> Seq<ConfigSourceView> {
    sources.map_values(|source: ConfigSource| source@)
}

/// The view of a source that may be absent.
pub open spec fn source_view(source: Option<&ConfigSource>) -> Option<ConfigSourceView> {
    match source {
        Some(source) => Some(source@),
        None => None,
    }
}

/// `high` where it is set, else `low`.
pub open spec fn preferred(low: Option<Seq<char>>, high: Option<Seq<char>>) -> Option<Seq<char>> {
    if high is Some {
        high
    } else {
        low
    }
}

/// The layer that sets nothing.
pub open spec fn empty_layer() -> ConfigFileView {
    ConfigFileView { api_key: None, base_url: None, model: None }
}

/// What `low` and `high` set together, where `high` has priority.
pub open spec fn overlaid(low: ConfigFileView, high: ConfigFileView) -> ConfigFileView {
    ConfigFileView {
        api_key: preferred(low.api_key, high.api_key),
        base_url: preferred(low.base_url, high.base_url),
        model: preferred(low.model, high.model),
    }
}

/// The last value that is set.
pub open spec fn last_set(values: Seq<Option<Seq<char>>>) -> Option<Seq<char>>
    decreases values.len(),
{
    if values.len() == 0 {
        None
    } else if values.last() is Some {
        values.last()
    } else {
        last_set(values.drop_last())
    }
}

/// What `layers` set together, the last one with the highest priority: of each
/// value, the last one that is set.
pub open spec fn layered(layers: Seq<ConfigFileView>) -> ConfigFileView {
    ConfigFileView {
        api_key: last_set(layers.map_values(|layer: ConfigFileView| layer.api_key)),
        base_url: last_set(layers.map_values(|layer: ConfigFileView| layer.base_url)),
        model: last_set(layers.map_values(|layer: ConfigFileView| layer.model)),
    }
}

/// The configuration that the values in `file` give: the defaults stand in for a
/// base URL or a model that is not set.
pub open spec fn with_defaults(file: ConfigFileView) -> ConfigView {
    ConfigView {
        api_key: file.api_key,
        base_url: match file.base_url {
            Some(base_url) => base_url,
            None => DEFAULT_BASE_URL@,
        },
        model: match file.model {
            Some(model) => model,
            None => DEFAULT_MODEL@,
        },
    }
}

/// The sources that could be read and hold a configuration.
pub open spec fn parsed(sources: Seq<ConfigSourceView>) -> Seq<ConfigSourceView> {
    sources.filter(|source: ConfigSourceView| source.outcome is Parsed)
}

/// The values that the parsed ones of `sources` set.
pub open spec fn file_layers(sources: Seq<ConfigSourceView>) -> Seq<ConfigFileView> {
    parsed(sources).map_values(|source: ConfigSourceView| source.outcome->Parsed_0)
}

/// The paths of the parsed ones of `sources`.
pub open spec fn parsed_paths(sources: Seq<ConfigSourceView>) -> Seq<Seq<char>> {
    parsed(sources).map_values(|source: ConfigSourceView| source.path)
}

/// Why the file that the user named could not be used, where it could not.
pub open spec fn custom_config_error(source: ConfigSourceView) -> Option<Seq<char>> {
    match source.outcome {
        FileOutcomeView::Missing => Some("Config file not found: "@ + source.path),
        FileOutcomeView::Unreadable(reason) => Some(
            "Failed to read config file "@ + source.path + ": "@ + reason,
        ),
        FileOutcomeView::Invalid(reason) => Some(
            "Invalid TOML in config file "@ + source.path + ": "@ + reason,
        ),
        FileOutcomeView::Parsed(_) => None,
    }
}

/// The files that count: those of the search path, and above them the one that
/// the user named.
pub open spec fn all_sources(
    sources: Seq<ConfigSourceView>,
    custom: Option<ConfigSourceView>,
) -> Seq<ConfigSourceView> {
    match custom {
        Some(source) => sources.push(source),
        None => sources,
    }
}

/// The configuration that the files in `sources` and the environment give, where
/// the environment has the highest priority.
pub open spec fn loaded(
    sources: Seq<ConfigSourceView>,
    environment: ConfigFileView,
) -> ConfigResultView {
    ConfigResultView {
        config: with_defaults(layered(file_layers(sources).push(environment))),
        loaded_paths: parsed_paths(sources),
    }
}

impl Default for ConfigFile {
    fn default() -> (file: ConfigFile)
        ensures
            file@ == empty_layer(),
            file.api_key is None && file.base_url is None && file.model is None,
    {
        ConfigFile { api_key: None, base_url: None, model: None }
    }
}

/// A copy of `text`.
pub fn copy_text(text: &Option<String>) -> (copy: Option<String>)
    ensures
        option_text(copy) == option_text(*text),
{
    match text {
        Some(text) => Some(text.clone()),
        None => None,
    }
}

/// `high` where it is set, else `low`.
fn prefer(low: Option<String>, high: &Option<String>) -> (value: Option<String>)
    ensures
        option_text(value) == preferred(option_text(low), option_text(*high)),
{
    if high.is_some() {
        copy_text(high)
    } else {
        low
    }
}

impl ConfigFile {
    /// The values set here and in `high`, where `high` has priority.
    pub fn overlay(self, high: &ConfigFile) -> (both: ConfigFile)
        ensures
            both@ == overlaid(self@, high@),
            option_text(both.api_key) == (if high.api_key is Some {
                option_text(high.api_key)
            } else {
                option_text(self.api_key)
            }),
            option_text(both.base_url) == (if high.base_url is Some {
                option_text(high.base_url)
            } else {
                option_text(self.base_url)
            }),
            option_text(both.model) == (if high.model is Some {
                option_text(high.model)
            } else {
                option_text(self.model)
            }),
    {
        ConfigFile {
            api_key: prefer(self.api_key, &high.api_key),
            base_url: prefer(self.base_url, &high.base_url),
            model: prefer(self.model, &high.model),
        }
    }

    /// The configuration that these values give, with the defaults for a base
    /// URL and a model that are not set.
    pub fn resolve(self) -> (config: Config)
        ensures
            config@ == with_defaults(self@),
            option_text(config.api_key) == option_text(self.api_key),
            config.base_url@ == (match self.base_url {
                Some(base_url) => base_url@,
                None => "https://api.openai.com/v1"@,
            }),
            config.model@ == (match self.model {
                Some(model) => model@,
                None => "gpt-4o-mini"@,
            }),
    {
        Config {
            api_key: self.api_key,
            base_url: match self.base_url {
                Some(base_url) => base_url,
                None => DEFAULT_BASE_URL.to_owned(),
            },
            model: match self.model {
                Some(model) => model,
                None => DEFAULT_MODEL.to_owned(),
            },
        }
    }
}

/// The values in the configuration file that the user named, or why that file
/// cannot be used: unlike the files of the search path, it has to be there and
/// to be valid.
pub fn load_custom_config(source: &ConfigSource) -> (file: Result<&ConfigFile, String>)
    ensures
        match file {
            Ok(file) => source@.outcome == FileOutcomeView::Parsed(file@),
            Err(message) => custom_config_error(source@) == Some(message@),
        },
        match file {
            Ok(file) => source.outcome == FileOutcome::Parsed(*file),
            Err(message) => match source.outcome {
                FileOutcome::Missing => message@ == "Config file not found: "@ + source.path@,
                FileOutcome::Unreadable(reason) => message@ == "Failed to read config file "@
                    + source.path@ + ": "@ + reason@,
                FileOutcome::Invalid(reason) => message@ == "Invalid TOML in config file "@
                    + source.path@ + ": "@ + reason@,
                FileOutcome::Parsed(_) => false,
            },
        },
{
    match &source.outcome {
        FileOutcome::Missing => Err(
            "Config file not found: ".to_owned().concat(source.path.as_str()),
        ),
        FileOutcome::Unreadable(reason) => Err(
            "Failed to read config file ".to_owned().concat(source.path.as_str()).concat(
                ": ",
            ).concat(reason.as_str()),
        ),
        FileOutcome::Invalid(reason) => Err(
            "Invalid TOML in config file ".to_owned().concat(source.path.as_str()).concat(
                ": ",
            ).concat(reason.as_str()),
        ),
        FileOutcome::Parsed(file) => Ok(file),
    }
}

/// A layer put on top of others is laid over what they set together.
pub proof fn law_layer_on_top(layers: Seq<ConfigFileView>, top: ConfigFileView)
    ensures
        layered(layers.push(top)) == overlaid(layered(layers), top),
{
    let all = layers.push(top);
    assert(all.map_values(|layer: ConfigFileView| layer.api_key).drop_last()
        =~= layers.map_values(|layer: ConfigFileView| layer.api_key));
    assert(all.map_values(|layer: ConfigFileView| layer.base_url).drop_last()
        =~= layers.map_values(|layer: ConfigFileView| layer.base_url));
    assert(all.map_values(|layer: ConfigFileView| layer.model).drop_last()
        =~= layers.map_values(|layer: ConfigFileView| layer.model));
}

proof fn lemma_parsed_push(sources: Seq<ConfigSourceView>, source: ConfigSourceView)
    ensures
        parsed(sources.push(source)) == if source.outcome is Parsed {
            parsed(sources).push(source)
        } else {
            parsed(sources)
        },
        source.outcome is Parsed ==> {
            &&& file_layers(sources.push(source)) == file_layers(sources).push(
                source.outcome->Parsed_0,
            )
            &&& parsed_paths(sources.push(source)) == parsed_paths(sources).push(source.path)
        },
{
    reveal(Seq::filter);
    assert(sources.push(source).drop_last() =~= sources);
    if source.outcome is Parsed {
        assert(file_layers(sources.push(source)) =~= file_layers(sources).push(
            source.outcome->Parsed_0,
        ));
        assert(parsed_paths(sources.push(source)) =~= parsed_paths(sources).push(source.path));
    }
}

/// The configuration in force.
///
/// `sources` are the files of the search path, lowest priority first: those that
/// are missing or invalid are passed over. `custom` is the file that the user
/// named, which has priority over them. The environment has the highest
/// priority.
pub fn load_config(
    sources: &Vec<ConfigSource>,
    custom: Option<&ConfigSource>,
    environment: &ConfigFile,
) -> (result: Result<ConfigResult, String>)
    ensures
        match result {
            Ok(found) => {
                &&& custom matches Some(source) ==> custom_config_error(source@) is None
                &&& found@ == loaded(
                    all_sources(source_views(sources@), source_view(custom)),
                    environment@,
                )
                &&& is_loaded(sources@, custom, *environment, found)
            },
            Err(message) => {
                &&& custom matches Some(source)
                &&& custom_config_error(source@) == Some(message@)
            },
        },
        result is Ok <==> (custom matches Some(source) ==> source.outcome is Parsed),
        result matches Ok(found) ==> {
            let file = values_in_custom(custom);
            &&& environment.api_key matches Some(key) ==> found.config.api_key is Some
                && found.config.api_key->Some_0@ == key@
            &&& environment.base_url matches Some(url) ==> found.config.base_url@ == url@
            &&& environment.model matches Some(model) ==> found.config.model@ == model@
            &&& environment.api_key is None ==> (file.api_key matches Some(key)
                ==> found.config.api_key is Some && found.config.api_key->Some_0@ == key@)
            &&& environment.base_url is None ==> (file.base_url matches Some(url)
                ==> found.config.base_url@ == url@)
            &&& environment.model is None ==> (file.model matches Some(model)
                ==> found.config.model@ == model@)
        },
{
    let mut merged = ConfigFile { api_key: None, base_url: None, model: None };
    let mut loaded_paths: Vec<String> = Vec::new();
    let ghost views = source_views(sources@);

    // Merge the files in order of priority.
    let mut i: usize = 0;
    proof {
        reveal(Seq::filter);
        assert(string_texts(loaded_paths@) =~= parsed_paths(views.take(0)));
    }
    while i < sources.len()
        invariant
            i <= sources.len(),
            views == source_views(sources@),
            merged@ == layered(file_layers(views.take(i as int))),
            string_texts(loaded_paths@) == parsed_paths(views.take(i as int)),
        decreases sources.len() - i,
    {
        let source = &sources[i];
        proof {
            lemma_parsed_push(views.take(i as int), source@);
            assert(views.take(i + 1) =~= views.take(i as int).push(source@));
        }
        if let FileOutcome::Parsed(file) = &source.outcome {
            proof {
                law_layer_on_top(file_layers(views.take(i as int)), file@);
            }
            merged = merged.overlay(file);
            let path = source.path.clone();
            assert(string_texts(loaded_paths@.push(path)) =~= string_texts(loaded_paths@).push(
                path@,
            ));
            loaded_paths.push(path);
        }
        i += 1;
    }
    assert(views.take(i as int) =~= views);

    // The file that the user named has priority over the search path.
    if let Some(source) = custom {
        match load_custom_config(source) {
            Err(message) => {
                return Err(message);
            },
            Ok(file) => {
                proof {
                    lemma_parsed_push(views, source@);
                    law_layer_on_top(file_layers(views), file@);
                }
                merged = merged.overlay(file);
                let path = source.path.clone();
                assert(string_texts(loaded_paths@.push(path)) =~= string_texts(
                    loaded_paths@,
                ).push(path@));
                loaded_paths.push(path);
            },
        }
    }
    proof {
        law_layer_on_top(
            file_layers(all_sources(views, source_view(custom))),
            environment@,
        );
    }

    // The environment has priority over all files.
    let found = ConfigResult { config: merged.overlay(environment).resolve(), loaded_paths };
    proof {
        law_environment_is_in_force(sources@, custom, *environment, found);
        if let Some(source) = custom {
            law_custom_file_is_in_force(
                sources@,
                source,
                values_in(source.outcome),
                *environment,
                found,
            );
        }
    }
    Ok(found)
}

/// What the lower layers set stands only where the higher layers set nothing.
pub proof fn law_higher_layers_override(low: Seq<ConfigFileView>, high: Seq<ConfigFileView>)
    ensures
        layered(low + high) == overlaid(layered(low), layered(high)),
    decreases high.len(),
{
    if high.len() == 0 {
        assert(low + high =~= low);
    } else {
        let rest = high.drop_last();
        law_higher_layers_override(low, rest);
        law_layer_on_top(low + rest, high.last());
        law_layer_on_top(rest, high.last());
        assert((low + rest).push(high.last()) =~= low + high);
        assert(rest.push(high.last()) =~= high);
    }
}

/// A later file has priority over an earlier one, and the environment over both.
pub proof fn law_priority_of_sources(
    low: Seq<ConfigSourceView>,
    high: Seq<ConfigSourceView>,
    environment: ConfigFileView,
)
    ensures
        loaded(low + high, environment).config == with_defaults(
            overlaid(
                overlaid(layered(file_layers(low)), layered(file_layers(high))),
                environment,
            ),
        ),
{
    lemma_parsed_concat(low, high);
    law_higher_layers_override(file_layers(low), file_layers(high));
    law_layer_on_top(file_layers(low + high), environment);
}

proof fn lemma_parsed_concat(low: Seq<ConfigSourceView>, high: Seq<ConfigSourceView>)
    ensures
        parsed(low + high) == parsed(low) + parsed(high),
        file_layers(low + high) == file_layers(low) + file_layers(high),
        parsed_paths(low + high) == parsed_paths(low) + parsed_paths(high),
{
    Seq::filter_distributes_over_add(
        low,
        high,
        |source: ConfigSourceView| source.outcome is Parsed,
    );
    assert(file_layers(low + high) =~= file_layers(low) + file_layers(high));
    assert(parsed_paths(low + high) =~= parsed_paths(low) + parsed_paths(high));
}

/// A value that the environment sets is the one in force, whatever the files
/// set.
pub proof fn law_environment_wins(sources: Seq<ConfigSourceView>, environment: ConfigFileView)
    ensures
        environment.api_key is Some ==> loaded(sources, environment).config.api_key
            == environment.api_key,
        environment.base_url matches Some(base_url) ==> loaded(sources, environment).config.base_url
            == base_url,
        environment.model matches Some(model) ==> loaded(sources, environment).config.model
            == model,
{
    law_layer_on_top(file_layers(sources), environment);
}

/// A value that the file on top sets is the one in force, unless the environment
/// sets it too.
pub proof fn law_file_on_top_wins(
    sources: Seq<ConfigSourceView>,
    path: Seq<char>,
    file: ConfigFileView,
    environment: ConfigFileView,
)
    ensures
        ({
            let top = ConfigSourceView { path, outcome: FileOutcomeView::Parsed(file) };
            let found = loaded(sources.push(top), environment);
            &&& environment.api_key is None && file.api_key is Some ==> found.config.api_key
                == file.api_key
            &&& environment.base_url is None ==> (file.base_url matches Some(base_url)
                ==> found.config.base_url == base_url)
            &&& environment.model is None ==> (file.model matches Some(model)
                ==> found.config.model == model)
            &&& found.loaded_paths == parsed_paths(sources).push(path)
        }),
{
    let top = ConfigSourceView { path, outcome: FileOutcomeView::Parsed(file) };
    lemma_parsed_push(sources, top);
    law_layer_on_top(file_layers(sources), file);
    law_layer_on_top(file_layers(sources.push(top)), environment);
}

/// Where nothing sets a value the defaults are in force, and there is no API key.
pub proof fn law_defaults(sources: Seq<ConfigSourceView>)
    requires
        forall|i: int| 0 <= i < sources.len() ==> !(#[trigger] sources[i].outcome is Parsed),
    ensures
        loaded(sources, empty_layer()) == (ConfigResultView {
            config: ConfigView {
                api_key: None,
                base_url: DEFAULT_BASE_URL@,
                model: DEFAULT_MODEL@,
            },
            loaded_paths: seq![],
        }),
{
    assert(parsed(sources) =~= seq![]) by {
        if parsed(sources).len() > 0 {
            lemma_parsed_comes_from(sources, 0);
        }
    }
    law_layer_on_top(file_layers(sources), empty_layer());
    assert(file_layers(sources) =~= seq![]);
    assert(layered(file_layers(sources)) == empty_layer());
    assert(parsed_paths(sources) =~= seq![]);
}

proof fn lemma_parsed_comes_from(sources: Seq<ConfigSourceView>, i: int)
    requires
        0 <= i < parsed(sources).len(),
    ensures
        exists|k: int| 0 <= k < sources.len() && #[trigger] sources[k] == parsed(sources)[i],
        parsed(sources)[i].outcome is Parsed,
    decreases sources.len(),
{
    reveal(Seq::filter);
    let rest = sources.drop_last();
    if i < parsed(rest).len() {
        lemma_parsed_comes_from(rest, i);
        let k = choose|k: int| 0 <= k < rest.len() && #[trigger] rest[k] == parsed(rest)[i];
        assert(sources[k] == parsed(sources)[i]);
    } else {
        assert(sources[sources.len() - 1] == parsed(sources)[i]);
    }
}

/// A file of the search path that is missing, cannot be read or is not valid
/// makes no difference.
pub proof fn law_unusable_file_is_passed_over(
    before: Seq<ConfigSourceView>,
    source: ConfigSourceView,
    after: Seq<ConfigSourceView>,
    environment: ConfigFileView,
)
    requires
        !(source.outcome is Parsed),
    ensures
        loaded(before.push(source) + after, environment) == loaded(before + after, environment),
{
    lemma_parsed_push(before, source);
    lemma_parsed_concat(before.push(source), after);
    lemma_parsed_concat(before, after);
}

/// The values that a file sets: those in it where it holds a configuration, and
/// else none.
pub open spec fn values_in(outcome: FileOutcome) -> ConfigFile {
    match outcome {
        FileOutcome::Parsed(file) => file,
        _ => ConfigFile { api_key: None, base_url: None, model: None },
    }
}

/// The values that the file that the user named sets, where there is one.
pub open spec fn values_in_custom(custom: Option<&ConfigSource>) -> ConfigFile {
    match custom {
        Some(source) => values_in(source.outcome),
        None => ConfigFile { api_key: None, base_url: None, model: None },
    }
}

/// Whether `found` is the configuration that is loaded from these files and this
/// environment.
pub open spec fn is_loaded(
    sources: Seq<ConfigSource>,
    custom: Option<&ConfigSource>,
    environment: ConfigFile,
    found: ConfigResult,
) -> bool {
    &&& custom matches Some(source) ==> source.outcome is Parsed
    &&& found@ == loaded(all_sources(source_views(sources), source_view(custom)), environment@)
}

/// Each value that the environment sets is the one in force.
pub proof fn law_environment_is_in_force(
    sources: Seq<ConfigSource>,
    custom: Option<&ConfigSource>,
    environment: ConfigFile,
    found: ConfigResult,
)
    requires
        is_loaded(sources, custom, environment, found),
    ensures
        environment.api_key matches Some(key) ==> found.config.api_key is Some
            && found.config.api_key->Some_0@ == key@,
        environment.base_url matches Some(url) ==> found.config.base_url@ == url@,
        environment.model matches Some(model) ==> found.config.model@ == model@,
{
    law_layer_on_top(
        file_layers(all_sources(source_views(sources), source_view(custom))),
        environment@,
    );
    assert(found@.config.api_key == option_text(found.config.api_key));
}

/// Each value that the file that the user named sets, and the environment does not,
/// is the one in force, whatever the files of the search path set.
pub proof fn law_custom_file_is_in_force(
    sources: Seq<ConfigSource>,
    source: &ConfigSource,
    file: ConfigFile,
    environment: ConfigFile,
    found: ConfigResult,
)
    requires
        is_loaded(sources, Some(source), environment, found),
        source.outcome == FileOutcome::Parsed(file),
    ensures
        environment.api_key is None ==> (file.api_key matches Some(key)
            ==> found.config.api_key is Some && found.config.api_key->Some_0@ == key@),
        environment.base_url is None ==> (file.base_url matches Some(url)
            ==> found.config.base_url@ == url@),
        environment.model is None ==> (file.model matches Some(model) ==> found.config.model@
            == model@),
{
    let views = source_views(sources);
    lemma_parsed_push(views, source@);
    law_layer_on_top(file_layers(views), file@);
    law_layer_on_top(file_layers(views.push(source@)), environment@);
    assert(found@.config.api_key == option_text(found.config.api_key));
}

/// Each value that the `n`th file of the search path sets is the one in force where
/// no later one sets it, nor the file that the user named, nor the environment.
pub proof fn law_last_file_that_sets_a_value_is_in_force(
    sources: Seq<ConfigSource>,
    custom: Option<&ConfigSource>,
    environment: ConfigFile,
    found: ConfigResult,
    n: int,
)
    requires
        is_loaded(sources, custom, environment, found),
        0 <= n < sources.len(),
    ensures
        environment.api_key is None && values_in_custom(custom).api_key is None && (forall|i: int|
            n < i < sources.len() ==> values_in(#[trigger] sources[i].outcome).api_key is None)
            ==> (values_in(sources[n].outcome).api_key matches Some(key)
            ==> found.config.api_key is Some && found.config.api_key->Some_0@ == key@),
        environment.base_url is None && values_in_custom(custom).base_url is None && (forall|i: int|
            n < i < sources.len() ==> values_in(#[trigger] sources[i].outcome).base_url is None)
            ==> (values_in(sources[n].outcome).base_url matches Some(url)
            ==> found.config.base_url@ == url@),
        environment.model is None && values_in_custom(custom).model is None && (forall|i: int|
            n < i < sources.len() ==> values_in(#[trigger] sources[i].outcome).model is None)
            ==> (values_in(sources[n].outcome).model matches Some(model)
            ==> found.config.model@ == model@),
{
    let views = source_views(sources);
    let all = all_sources(views, source_view(custom));
    let api_key = |file: ConfigFileView| file.api_key;
    let base_url = |file: ConfigFileView| file.base_url;
    let model = |file: ConfigFileView| file.model;
    lemma_views_are_parsed(sources);
    if let Some(source) = custom {
        lemma_parsed_push(views, source@);
        law_layer_on_top(file_layers(views), source@.outcome->Parsed_0);
    }
    law_layer_on_top(file_layers(all), environment@);
    if values_in(sources[n].outcome).api_key is Some {
        lemma_last_setter(views, api_key, n);
    }
    if values_in(sources[n].outcome).base_url is Some {
        lemma_last_setter(views, base_url, n);
    }
    if values_in(sources[n].outcome).model is Some {
        lemma_last_setter(views, model, n);
    }
    assert(found@.config.api_key == option_text(found.config.api_key));
}

/// Where nothing sets the base URL or the model, the default is in force, and where
/// nothing sets the API key, there is none.
pub proof fn law_what_nothing_sets(
    sources: Seq<ConfigSource>,
    custom: Option<&ConfigSource>,
    environment: ConfigFile,
    found: ConfigResult,
)
    requires
        is_loaded(sources, custom, environment, found),
    ensures
        environment.api_key is None && values_in_custom(custom).api_key is None && (forall|i: int|
            0 <= i < sources.len() ==> values_in(#[trigger] sources[i].outcome).api_key is None)
            ==> found.config.api_key is None,
        environment.base_url is None && values_in_custom(custom).base_url is None && (forall|i: int|
            0 <= i < sources.len() ==> values_in(#[trigger] sources[i].outcome).base_url is None)
            ==> found.config.base_url@ == "https://api.openai.com/v1"@,
        environment.model is None && values_in_custom(custom).model is None && (forall|i: int|
            0 <= i < sources.len() ==> values_in(#[trigger] sources[i].outcome).model is None)
            ==> found.config.model@ == "gpt-4o-mini"@,
{
    let views = source_views(sources);
    let all = all_sources(views, source_view(custom));
    let api_key = |file: ConfigFileView| file.api_key;
    let base_url = |file: ConfigFileView| file.base_url;
    let model = |file: ConfigFileView| file.model;
    lemma_views_are_parsed(sources);
    if let Some(source) = custom {
        lemma_parsed_push(views, source@);
        law_layer_on_top(file_layers(views), source@.outcome->Parsed_0);
    }
    law_layer_on_top(file_layers(all), environment@);
    lemma_no_setter(views, api_key);
    lemma_no_setter(views, base_url);
    lemma_no_setter(views, model);
    assert(found@.config.api_key == option_text(found.config.api_key));
}

/// The value that a source sets, where it is parsed and sets it.
spec fn set_by(
    source: ConfigSourceView,
    get: spec_fn(ConfigFileView) -> Option<Seq<char>>,
) -> Option<Seq<char>> {
    match source.outcome {
        FileOutcomeView::Parsed(file) => get(file),
        _ => None,
    }
}

proof fn lemma_views_are_parsed(sources: Seq<ConfigSource>)
    ensures
        source_views(sources).len() == sources.len(),
        forall|i: int|
            0 <= i < sources.len() ==> {
                let view = #[trigger] source_views(sources)[i];
                let values = values_in(sources[i].outcome);
                &&& set_by(view, |file: ConfigFileView| file.api_key) == option_text(values.api_key)
                &&& set_by(view, |file: ConfigFileView| file.base_url) == option_text(
                    values.base_url,
                )
                &&& set_by(view, |file: ConfigFileView| file.model) == option_text(values.model)
            },
{
}

proof fn lemma_last_setter(
    sources: Seq<ConfigSourceView>,
    get: spec_fn(ConfigFileView) -> Option<Seq<char>>,
    n: int,
)
    requires
        0 <= n < sources.len(),
        set_by(sources[n], get) is Some,
        forall|low: ConfigFileView, high: ConfigFileView| #[trigger]
            get(overlaid(low, high)) == preferred(get(low), get(high)),
    ensures
        (forall|i: int| n < i < sources.len() ==> set_by(#[trigger] sources[i], get) is None)
            ==> get(layered(file_layers(sources))) == set_by(sources[n], get),
    decreases sources.len(),
{
    let rest = sources.drop_last();
    let top = sources.last();
    assert(rest.push(top) =~= sources);
    lemma_parsed_push(rest, top);
    if top.outcome is Parsed {
        law_layer_on_top(file_layers(rest), top.outcome->Parsed_0);
    }
    let alone = forall|i: int|
        n < i < sources.len() ==> set_by(#[trigger] sources[i], get) is None;
    if alone && n < sources.len() - 1 {
        assert(set_by(sources[sources.len() - 1], get) is None);
        assert forall|i: int| n < i < rest.len() implies set_by(
            #[trigger] rest[i],
            get,
        ) is None by {
            assert(rest[i] == sources[i]);
        }
        lemma_last_setter(rest, get, n);
    }
}

proof fn lemma_no_setter(
    sources: Seq<ConfigSourceView>,
    get: spec_fn(ConfigFileView) -> Option<Seq<char>>,
)
    requires
        get(empty_layer()) is None,
        forall|low: ConfigFileView, high: ConfigFileView| #[trigger]
            get(overlaid(low, high)) == preferred(get(low), get(high)),
    ensures
        (forall|i: int| 0 <= i < sources.len() ==> set_by(#[trigger] sources[i], get) is None)
            ==> get(layered(file_layers(sources))) is None,
    decreases sources.len(),
{
    if sources.len() == 0 {
        reveal(Seq::filter);
        assert(file_layers(sources) =~= seq![]);
        assert(layered(file_layers(sources)) == empty_layer());
    } else if forall|i: int| 0 <= i < sources.len() ==> set_by(#[trigger] sources[i], get) is None {
        let rest = sources.drop_last();
        let top = sources.last();
        assert(rest.push(top) =~= sources);
        lemma_parsed_push(rest, top);
        if top.outcome is Parsed {
            law_layer_on_top(file_layers(rest), top.outcome->Parsed_0);
        }
        assert(set_by(sources[sources.len() - 1], get) is None);
        assert forall|i: int| 0 <= i < rest.len() implies set_by(
            #[trigger] rest[i],
            get,
        ) is None by {
            assert(rest[i] == sources[i]);
        }
        lemma_no_setter(rest, get);
    }
}

/// The files that are said to be loaded are those that hold a configuration, in
/// order: of the search path the ones at `kept`, and behind them the one that the
/// user named.
pub proof fn law_loaded_paths_are_those_of_parsed_files(
    sources: Seq<ConfigSource>,
    custom: Option<&ConfigSource>,
    environment: ConfigFile,
    found: ConfigResult,
) -> (kept: Seq<int>)
    requires
        is_loaded(sources, custom, environment, found),
    ensures
        forall|k: int|
            0 <= k < kept.len() ==> 0 <= #[trigger] kept[k] < sources.len()
                && sources[kept[k]].outcome is Parsed,
        forall|j: int, k: int| 0 <= j < k < kept.len() ==> #[trigger] kept[j] < #[trigger] kept[k],
        forall|i: int|
            0 <= i < sources.len() && (#[trigger] sources[i]).outcome is Parsed ==> kept.contains(
                i,
            ),
        found.loaded_paths@.len() == kept.len() + (if custom is Some {
            1int
        } else {
            0
        }),
        forall|k: int|
            0 <= k < kept.len() ==> #[trigger] found.loaded_paths@[k]@ == sources[kept[k]].path@,
        custom matches Some(source) ==> found.loaded_paths@[kept.len() as int]@ == source.path@,
{
    let views = source_views(sources);
    let kept = lemma_parsed_indices(views);
    let all = all_sources(views, source_view(custom));
    if let Some(source) = custom {
        lemma_parsed_push(views, source@);
    }
    let paths = string_texts(found.loaded_paths@);
    assert(paths == parsed_paths(all));
    assert(paths.len() == found.loaded_paths@.len());
    assert forall|k: int| 0 <= k < kept.len() implies #[trigger] found.loaded_paths@[k]@
        == sources[kept[k]].path@ by {
        assert(paths[k] == found.loaded_paths@[k]@);
        assert(parsed(views)[k] == views[kept[k]]);
        assert(parsed_paths(views)[k] == parsed(views)[k].path);
    }
    if let Some(source) = custom {
        assert(paths[kept.len() as int] == found.loaded_paths@[kept.len() as int]@);
    }
    assert forall|k: int| 0 <= k < kept.len() implies 0 <= #[trigger] kept[k] < sources.len()
        && sources[kept[k]].outcome is Parsed by {
        assert(views[kept[k]].outcome is Parsed);
    }
    assert forall|i: int|
        0 <= i < sources.len() && (#[trigger] sources[i]).outcome is Parsed implies kept.contains(
        i,
    ) by {
        assert(views[i].outcome is Parsed);
    }
    kept
}

proof fn lemma_parsed_indices(sources: Seq<ConfigSourceView>) -> (kept: Seq<int>)
    ensures
        kept.len() == parsed(sources).len(),
        forall|k: int|
            0 <= k < kept.len() ==> 0 <= #[trigger] kept[k] < sources.len()
                && sources[kept[k]].outcome is Parsed && parsed(sources)[k] == sources[kept[k]],
        forall|j: int, k: int| 0 <= j < k < kept.len() ==> #[trigger] kept[j] < #[trigger] kept[k],
        forall|i: int|
            0 <= i < sources.len() && (#[trigger] sources[i]).outcome is Parsed ==> kept.contains(
                i,
            ),
    decreases sources.len(),
{
    if sources.len() == 0 {
        reveal(Seq::filter);
        assert(parsed(sources).len() == 0);
        Seq::empty()
    } else {
        let rest = sources.drop_last();
        let top = sources.last();
        assert(rest.push(top) =~= sources);
        lemma_parsed_push(rest, top);
        let low = lemma_parsed_indices(rest);
        let last = sources.len() - 1;
        let kept = if top.outcome is Parsed {
            low.push(last)
        } else {
            low
        };
        assert forall|i: int|
            0 <= i < sources.len()
                && (#[trigger] sources[i]).outcome is Parsed implies kept.contains(i) by {
            if i < last {
                assert(rest[i] == sources[i]);
                let k = choose|k: int| 0 <= k < low.len() && low[k] == i;
                assert(kept[k] == i);
            } else {
                assert(kept[low.len() as int] == i);
            }
        }
        assert forall|k: int| 0 <= k < kept.len() implies 0 <= #[trigger] kept[k] < sources.len()
            && sources[kept[k]].outcome is Parsed && parsed(sources)[k] == sources[kept[k]] by {
            if k < low.len() {
                assert(kept[k] == low[k]);
                assert(rest[low[k]] == sources[low[k]]);
            }
        }
        kept
    }
}

/// A file that the user named and that cannot be used is reported by its path, and
/// with what is wrong with it.
pub proof fn law_unusable_custom_file_is_reported(source: ConfigSource, message: String)
    requires
        custom_config_error(source@) == Some(message@),
    ensures
        match source.outcome {
            FileOutcome::Missing => message@ == "Config file not found: "@ + source.path@,
            FileOutcome::Unreadable(reason) => message@ == "Failed to read config file "@
                + source.path@ + ": "@ + reason@,
            FileOutcome::Invalid(reason) => message@ == "Invalid TOML in config file "@
                + source.path@ + ": "@ + reason@,
            FileOutcome::Parsed(_) => false,
        },
{
}

} // verus!
