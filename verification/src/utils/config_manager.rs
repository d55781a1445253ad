//! Filter rules and the configuration that carries them.

use vstd::prelude::*;
use vstd::string::*;

verus! {

/// How much of a file's diff survives, for the files a glob selects.
#[derive(Debug, Clone)]
pub struct FilterRule {
    /// Glob that selects the files the rule is for.
    pub file_pattern: String,
    /// Number of context lines kept on each side of a change.
    pub context_lines: usize,
    /// Whether a changed method is kept whole.
    pub include_method_body: bool,
    /// Whether the signatures of methods near a change are kept.
    pub include_signatures: bool,
}

/// The mathematical value of a rule.
pub struct FilterRuleView {
    pub file_pattern: Seq<char>,
    pub context_lines: nat,
    pub include_method_body: bool,
    pub include_signatures: bool,
}

impl View for FilterRule {
    type V = FilterRuleView;

    open spec fn view(&self) -> FilterRuleView {
        FilterRuleView {
            file_pattern: self.file_pattern@,
            context_lines: self.context_lines as nat,
            include_method_body: self.include_method_body,
            include_signatures: self.include_signatures,
        }
    }
}

/// The values of a list of rules.
pub open spec fn rules_view(v: Seq<FilterRule>) -> Seq<FilterRuleView> {
    Seq::new(v.len(), |i: int| v[i]@)
}

/// The rule for files that no configured rule selects: every file, three
/// lines of context, no structural filtering.
pub open spec fn default_rule_view() -> FilterRuleView {
    FilterRuleView {
        file_pattern: "*"@,
        context_lines: 3,
        include_method_body: false,
        include_signatures: false,
    }
}

impl FilterRule {
    /// The rule for files that no configured rule selects.
    pub fn catch_all() -> (r: FilterRule)
        ensures
            r@ == default_rule_view(),
    {
        FilterRule {
            file_pattern: "*".to_owned(),
            context_lines: 3,
            include_method_body: false,
            include_signatures: false,
        }
    }

    /// A copy of the rule.
    pub fn duplicate(&self) -> (r: FilterRule)
        ensures
            r@ == self@,
    {
        FilterRule {
            file_pattern: self.file_pattern.clone(),
            context_lines: self.context_lines,
            include_method_body: self.include_method_body,
            include_signatures: self.include_signatures,
        }
    }
}

/// The configuration of the tool.
#[derive(Debug)]
pub struct Config {
    /// Name of the model whose tokens are counted.
    pub tiktoken_model: String,
    /// The rules, first match wins.
    pub filters: Vec<FilterRule>,
}

/// The mathematical value of a configuration.
pub struct ConfigView {
    pub tiktoken_model: Seq<char>,
    pub filters: Seq<FilterRuleView>,
}

impl View for Config {
    type V = ConfigView;

    open spec fn view(&self) -> ConfigView {
        ConfigView { tiktoken_model: self.tiktoken_model@, filters: rules_view(self.filters@) }
    }
}

/// The configuration used where none was stored.
pub open spec fn default_config_view() -> ConfigView {
    ConfigView { tiktoken_model: "gpt-4o"@, filters: seq![default_rule_view()] }
}

impl Default for Config {
    fn default() -> (c: Config)
        ensures
            c@ == default_config_view(),
    {
        let mut filters: Vec<FilterRule> = Vec::new();
        filters.push(FilterRule::catch_all());
        let c = Config { tiktoken_model: "gpt-4o".to_owned(), filters };
        assert(c@.filters =~= seq![default_rule_view()]);
        c
    }
}

/// Holds the configuration in force.
pub struct ConfigManager {
    config: Config,
}

impl ConfigManager {
    /// The configuration in force.
    pub closed spec fn config(&self) -> ConfigView {
        self.config@
    }

    /// A manager for the configuration that was stored, or for the default
    /// configuration where none was.
    pub fn new(stored: Option<Config>) -> (m: ConfigManager)
        ensures
            m.config() == match stored {
                Some(c) => c@,
                None => default_config_view(),
            },
    {
        match stored {
            Some(config) => ConfigManager { config },
            None => ConfigManager { config: Config::default() },
        }
    }

    /// Name of the model whose tokens are counted.
    pub fn get_tiktoken_model(&self) -> (r: &str)
        ensures
            r@ == self.config().tiktoken_model,
    {
        self.config.tiktoken_model.as_str()
    }

    /// The rules, in order.
    pub fn get_filters(&self) -> (r: &[FilterRule])
        ensures
            rules_view(r@) == self.config().filters,
    {
        self.config.filters.as_slice()
    }
}

} // verus!
