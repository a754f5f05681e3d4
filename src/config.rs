//! Settings of the store tables and of the server around them.
use vstd::prelude::*;

verus! {

/// Names of the table and of its key attributes.
#[derive(Debug, Clone)]
pub struct DynamoDBConfig {
    pub table: String,
    pub partition_key: String,
    pub sort_key: String,
    pub gsi1_name: String,
    pub gsi1_partition_key: String,
    pub gsi1_sort_key: String,
}

pub struct ConfigV {
    pub partition_key: Seq<char>,
    pub sort_key: Seq<char>,
    pub gsi1_partition_key: Seq<char>,
    pub gsi1_sort_key: Seq<char>,
}

impl View for DynamoDBConfig {
    type V = ConfigV;

    open spec fn view(&self) -> ConfigV {
        ConfigV {
            partition_key: self.partition_key@,
            sort_key: self.sort_key@,
            gsi1_partition_key: self.gsi1_partition_key@,
            gsi1_sort_key: self.gsi1_sort_key@,
        }
    }
}

pub open spec fn title_name() -> Seq<char> {
    seq!['t', 'i', 't', 'l', 'e']
}

pub open spec fn complete_name() -> Seq<char> {
    seq!['c', 'o', 'm', 'p', 'l', 'e', 't', 'e']
}

/// Name of the attribute holding an entity's title.
pub fn title_attr() -> (r: &'static str)
    ensures
        r@ == title_name(),
{
    proof {
        reveal_strlit("title");
    }
    "title"
}

/// Name of the attribute holding an item's completion flag.
pub fn complete_attr() -> (r: &'static str)
    ensures
        r@ == complete_name(),
{
    proof {
        reveal_strlit("complete");
    }
    "complete"
}

/// `n` names an attribute of an entity.
pub open spec fn entity_name(n: Seq<char>) -> bool {
    n == title_name() || n == complete_name()
}

/// The four key attributes have distinct names, none of which is an entity
/// attribute.
pub open spec fn config_wf(c: ConfigV) -> bool {
    &&& c.partition_key != c.sort_key
    &&& c.partition_key != c.gsi1_partition_key
    &&& c.partition_key != c.gsi1_sort_key
    &&& c.sort_key != c.gsi1_partition_key
    &&& c.sort_key != c.gsi1_sort_key
    &&& c.gsi1_partition_key != c.gsi1_sort_key
    &&& entity_name(c.partition_key) == false
    &&& entity_name(c.sort_key) == false
    &&& entity_name(c.gsi1_partition_key) == false
    &&& entity_name(c.gsi1_sort_key) == false
}

fn differ(a: &String, b: &str) -> (r: bool)
    ensures
        r == (a@ != b@),
{
    !(*a == String::from_str(b))
}

impl DynamoDBConfig {
    pub fn is_well_formed(&self) -> (r: bool)
        ensures
            r == config_wf(self@),
    {
        let title = title_attr();
        let complete = complete_attr();
        let pk = &self.partition_key;
        let sk = &self.sort_key;
        let gp = &self.gsi1_partition_key;
        let gs = &self.gsi1_sort_key;
        let distinct = *pk != *sk && *pk != *gp && *pk != *gs && *sk != *gp && *sk != *gs && *gp != *gs;
        let apart = differ(pk, title) && differ(pk, complete) && differ(sk, title) && differ(sk, complete)
            && differ(gp, title) && differ(gp, complete) && differ(gs, title) && differ(gs, complete);
        distinct && apart
    }
}

/// Settings of the HTTP server.
#[derive(Debug, Clone)]
pub struct ServingConfig {
    pub port: u16,
}

/// All settings of the service.
#[derive(Debug, Clone)]
pub struct Config {
    pub dynamodb: DynamoDBConfig,
    pub serving: ServingConfig,
}

} // verus!
