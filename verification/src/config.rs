//! The few configuration paths the core fixes. The platform cache, data
//! and config roots themselves are resolved by the caller and handed in as
//! plain paths.
use vstd::prelude::*;
use vstd::string::StringExecFns;

verus! {

/// The platform directories one invocation works under, resolved by the
/// caller.
pub struct Subdirs {
    /// Where converted office documents are cached.
    pub cache_dir: String,
    /// Where long-lived data (such as a browser profile) lives.
    pub data_dir: String,
    /// Where the plugin registry file lives.
    pub config_dir: String,
}

/// The path of the plugin registry file: `plugins.toml` directly under the
/// given configuration directory (no trailing separator expected).
pub fn get_config_path(config_dir: &str) -> (r: String)
    ensures
        r@ == config_dir@ + seq!['/', 'p', 'l', 'u', 'g', 'i', 'n', 's', '.', 't', 'o', 'm', 'l'],
{
    let r = config_dir.to_owned().concat("/plugins.toml");
    proof {
        reveal_strlit("/plugins.toml");
        assert("/plugins.toml"@ =~= seq![
            '/',
            'p',
            'l',
            'u',
            'g',
            'i',
            'n',
            's',
            '.',
            't',
            'o',
            'm',
            'l',
        ]);
    }
    r
}

} // verus!
