//! The parts of a config, each on its own.

use crate::config::{PluginConfig, PluginReference, RouteConfig, ServiceConfig};
use crate::strmap;
use crate::strmap::StrMap;
use crate::text;
use crate::yaml;
use vstd::prelude::*;

verus! {

/// A declared plugin.
pub struct Plugin {
    pub name: String,
    pub ptype: String,
    pub params: StrMap<yaml_serde::Value>,
}

/// Copies a block of parameters.
pub fn copy_block(m: &StrMap<yaml_serde::Value>) -> (r: StrMap<yaml_serde::Value>)
    ensures
        yaml::block_view(r) == yaml::block_view(*m),
{
    let n = m.len();
    let ghost e = m.entries();
    let mut out: StrMap<yaml_serde::Value> = StrMap::new();
    let mut i: usize = 0;
    proof {
        assert(e.take(0) =~= Seq::empty());
        assert(yaml::block_view(out) =~= strmap::map_of(e.take(0)).map_values(
            |v: yaml_serde::Value| yaml::yaml_view(v),
        ));
    }
    while i < n
        invariant
            i <= n,
            n == e.len(),
            e == m.entries(),
            yaml::block_view(out) == strmap::map_of(e.take(i as int)).map_values(
                |v: yaml_serde::Value| yaml::yaml_view(v),
            ),
        decreases n - i,
    {
        let (key, value) = m.at(i);
        let ghost front = yaml::block_view(out);
        out.insert(key.to_owned(), value.clone());
        proof {
            assert(e.take(i + 1).drop_last() =~= e.take(i as int));
            assert(e.take(i + 1).last() == e[i as int]);
            assert(yaml::block_view(out) =~= front.insert(key@, yaml::yaml_view(*value)));
            assert(yaml::block_view(out) =~= strmap::map_of(e.take(i + 1)).map_values(
                |v: yaml_serde::Value| yaml::yaml_view(v),
            ));
        }
        i = i + 1;
    }
    proof {
        assert(e.take(i as int) =~= e);
    }
    out
}

/// What an optional block of parameters says.
pub open spec fn opt_block_view(m: Option<StrMap<yaml_serde::Value>>) -> Option<
    Map<Seq<char>, yaml::YamlView>,
> {
    match m {
        Some(m) => Some(yaml::block_view(m)),
        None => None,
    }
}

/// Copies an optional block of parameters.
pub fn copy_opt_block(m: &Option<StrMap<yaml_serde::Value>>) -> (r: Option<
    StrMap<yaml_serde::Value>,
>)
    ensures
        opt_block_view(r) == opt_block_view(*m),
{
    match m {
        Some(m) => Some(copy_block(m)),
        None => None,
    }
}

impl Plugin {
    pub fn from_config(config: &PluginConfig) -> (r: Plugin)
        ensures
            r.name@ == config.name@,
            r.ptype@ == config.plugin_id@,
            yaml::block_view(r.params) == yaml::block_view(config.params),
    {
        Plugin {
            name: config.name.clone(),
            ptype: config.plugin_id.clone(),
            params: copy_block(&config.params),
        }
    }
}

/// A declared service.
pub struct Service {
    pub name: String,
    pub url: String,
}

impl Service {
    pub fn from_config(config: &ServiceConfig) -> (r: Service)
        ensures
            r.name@ == config.name@,
            r.url@ == config.url@,
    {
        Service { name: config.name.clone(), url: config.url.clone() }
    }
}

/// A declared route.
pub struct Route {
    pub name: String,
    pub url: String,
    pub paths: Vec<String>,
    pub strip_path: bool,
    pub plugins: Option<Vec<PluginReference>>,
}

/// Whether two lists refer to the same plugins with the same parameters.
pub open spec fn same_references(
    a: Option<Vec<PluginReference>>,
    b: Option<Vec<PluginReference>>,
) -> bool {
    match (a, b) {
        (Some(a), Some(b)) => a@.len() == b@.len() && forall|i: int|
            0 <= i < a@.len() ==> (#[trigger] a@[i]).name@ == b@[i].name@ && opt_block_view(
                a@[i].params,
            ) == opt_block_view(b@[i].params),
        (None, None) => true,
        _ => false,
    }
}

impl Route {
    pub fn from_config(config: &RouteConfig) -> (r: Self)
        ensures
            r.name@ == config.name@,
            r.url@ == config.url@,
            text::texts(r.paths@) == text::texts(config.paths@),
            r.strip_path == config.strip_path,
            same_references(r.plugins, config.plugins),
    {
        let plugins = match &config.plugins {
            Some(list) => {
                let mut out: Vec<PluginReference> = Vec::new();
                let mut i: usize = 0;
                while i < list.len()
                    invariant
                        i <= list@.len(),
                        out@.len() == i,
                        forall|k: int|
                            0 <= k < i ==> (#[trigger] out@[k]).name@ == list@[k].name@
                                && opt_block_view(out@[k].params) == opt_block_view(
                                list@[k].params,
                            ),
                    decreases list@.len() - i,
                {
                    out.push(
                        PluginReference {
                            name: list[i].name.clone(),
                            params: copy_opt_block(&list[i].params),
                        },
                    );
                    i = i + 1;
                }
                Some(out)
            },
            None => None,
        };
        Self {
            name: config.name.clone(),
            url: config.url.clone(),
            paths: text::copy_texts(&config.paths),
            strip_path: config.strip_path,
            plugins,
        }
    }
}

} // verus!
