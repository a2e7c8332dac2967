//! The plugin's configuration: listen address, the global block list, the
//! per-proxy block lists, the threat-lookup key and the block database path.

use vstd::prelude::*;
use crate::text::str_eq;

verus! {

/// The block list of one proxy.
pub struct ProxyConfig {
    pub block: Vec<String>,
}

/// The whole configuration. Every field has a default, used where the
/// configuration file leaves it out.
pub struct Config {
    pub listen: String,
    pub block: Vec<String>,
    /// Per-proxy overrides, by proxy name.
    pub proxies: Vec<(String, ProxyConfig)>,
    pub ipdata_api_key: Option<String>,
    pub db_path: String,
}

/// Why no configuration could be had.
#[derive(Clone, Copy, Debug, PartialEq, Eq, Structural)]
pub enum ConfigError {
    /// The configuration file was required and does not exist.
    NotFound,
}

pub open spec fn spec_default_listen() -> Seq<char> {
    "127.0.0.1:7200"@
}

pub open spec fn spec_default_db_path() -> Seq<char> {
    "/var/tmp/frps-defender/blocks.db"@
}

/// The default listen address.
pub fn default_listen() -> (r: String)
    ensures
        r@ == spec_default_listen(),
{
    String::from_str("127.0.0.1:7200")
}

/// The default global block list: every provider.
pub fn default_block() -> (r: Vec<String>)
    ensures
        r@.len() == 1,
        r@[0]@ == "all"@,
{
    let mut v: Vec<String> = Vec::new();
    v.push(String::from_str("all"));
    v
}

/// The default path of the block database.
pub fn default_db_path() -> (r: String)
    ensures
        r@ == spec_default_db_path(),
{
    String::from_str("/var/tmp/frps-defender/blocks.db")
}

impl Config {
    /// No two proxies share a name.
    pub open spec fn wf(self) -> bool {
        forall|i: int, j: int| 0 <= i < j < self.proxies@.len()
            ==> #[trigger] self.proxies@[i].0@ != #[trigger] self.proxies@[j].0@
    }

    /// Every field holds its default.
    pub open spec fn is_default(self) -> bool {
        &&& self.listen@ == spec_default_listen()
        &&& self.block@.len() == 1
        &&& self.block@[0]@ == "all"@
        &&& self.proxies@.len() == 0
        &&& self.ipdata_api_key is None
        &&& self.db_path@ == spec_default_db_path()
    }

    /// The `i`-th proxy is the first one called `name`.
    pub open spec fn first_proxy_named(self, name: Seq<char>, i: int) -> bool {
        &&& 0 <= i < self.proxies@.len()
        &&& self.proxies@[i].0@ == name
        &&& forall|j: int| 0 <= j < i ==> #[trigger] self.proxies@[j].0@ != name
    }

    /// No proxy is called `name`.
    pub open spec fn no_proxy_named(self, name: Seq<char>) -> bool {
        forall|i: int| 0 <= i < self.proxies@.len() ==> #[trigger] self.proxies@[i].0@ != name
    }

    /// The provider block list that applies to the proxy called `name`: that
    /// of the first proxy entry of that name, the global list where there is
    /// none.
    pub open spec fn spec_providers_for(self, name: Seq<char>) -> Seq<String> {
        if exists|i: int| self.first_proxy_named(name, i) {
            self.proxies@[choose|i: int| self.first_proxy_named(name, i)].1.block@
        } else {
            self.block@
        }
    }

    /// The default configuration.
    pub fn new_default() -> (r: Config)
        ensures
            r.is_default(),
            r.wf(),
    {
        Config {
            listen: default_listen(),
            block: default_block(),
            proxies: Vec::new(),
            ipdata_api_key: None,
            db_path: default_db_path(),
        }
    }

    /// The configuration to run with when the configuration file does not
    /// exist: an error if the file was required, the defaults otherwise.
    pub fn when_file_absent(required: bool) -> (r: Result<Config, ConfigError>)
        ensures
            required ==> r == Err::<Config, ConfigError>(ConfigError::NotFound),
            !required ==> (r matches Ok(c) && c.is_default() && c.wf()),
    {
        if required {
            Err(ConfigError::NotFound)
        } else {
            Ok(Config::new_default())
        }
    }

    /// The provider block list for a proxy: that of the proxy's own entry
    /// where there is one, the global list otherwise.
    pub fn providers_for(&self, proxy_name: &str) -> (r: &[String])
        ensures
            r@ == self.spec_providers_for(proxy_name@),
            forall|i: int| self.first_proxy_named(proxy_name@, i)
                ==> r@ == (#[trigger] self.proxies@[i]).1.block@,
            self.no_proxy_named(proxy_name@) ==> r@ == self.block@,
    {
        let mut i: usize = 0;
        while i < self.proxies.len()
            invariant
                i <= self.proxies@.len(),
                forall|j: int| 0 <= j < i ==> #[trigger] self.proxies@[j].0@ != proxy_name@,
            decreases self.proxies@.len() - i,
        {
            if str_eq(self.proxies[i].0.as_str(), proxy_name) {
                proof {
                    assert(self.first_proxy_named(proxy_name@, i as int));
                    let c = choose|c: int| self.first_proxy_named(proxy_name@, c);
                    if c < i {
                        assert(self.proxies@[c].0@ != proxy_name@);
                    } else if c > i {
                        assert(self.proxies@[i as int].0@ != proxy_name@);
                    }
                }
                return self.proxies[i].1.block.as_slice();
            }
            i = i + 1;
        }
        self.block.as_slice()
    }
}

impl Default for Config {
    fn default() -> (r: Config)
        ensures
            r.is_default(),
            r.wf(),
    {
        Config::new_default()
    }
}

} // verus!
