use vstd::prelude::*;
use std::collections::BTreeMap;

verus! {

/// The project description that ties a cartridge together: optional
/// metadata, the machine settings and the paths of the resources.
#[derive(Debug, Clone)]
pub struct Manifest {
    pub metadata: Option<Metadata>,
    pub settings: Settings,
    pub resources: Resources,
}

/// Optional information about the game; the console itself never reads it.
#[derive(Debug, Clone)]
pub struct Metadata {
    pub name: Option<String>,
    pub version: Option<String>,
}

/// Sizes, in bytes, of the RAM and stack sections of main memory.
#[derive(Debug, Clone, Copy)]
pub struct Settings {
    pub ram_size: u64,
    pub stack_size: u64,
}

/// Paths of the entry script, the palette, and the numbered backgrounds
/// and sprites.
#[derive(Debug, Clone)]
pub struct Resources {
    pub entry: String,
    pub palette: String,
    pub bg: BTreeMap<u32, String>,
    pub img: BTreeMap<u32, String>,
}

impl Manifest {
    /// The manifest of a new project named `name`: the settings and file
    /// names of the example in the manifest documentation, and no images.
    pub fn default(name: String) -> (r: Manifest)
        ensures
            r.metadata is Some,
            r.metadata->0.name == Some(name),
            r.metadata->0.version matches Some(v) && v@ == "v1.0"@,
            r.settings.ram_size == 2000,
            r.settings.stack_size == 1000,
            r.resources.entry@ == "source.vea"@,
            r.resources.palette@ == "palette.pal"@,
            r.resources.bg@ == Map::<u32, String>::empty(),
            r.resources.img@ == Map::<u32, String>::empty(),
    {
        Manifest {
            metadata: Some(Metadata { name: Some(name), version: Some("v1.0".to_owned()) }),
            settings: Settings { ram_size: 2000, stack_size: 1000 },
            resources: Resources {
                entry: "source.vea".to_owned(),
                palette: "palette.pal".to_owned(),
                bg: BTreeMap::new(),
                img: BTreeMap::new(),
            },
        }
    }
}

} // verus!
