//! Configuration for VFIO based PCIe device passthrough.

use vstd::prelude::*;

verus! {

/// Errors associated with the operations allowed on a VFIO passthrough device.
#[derive(Debug, PartialEq, Eq)]
pub enum VfioConfigError {
    /// A VFIO device with this id already exists.
    DeviceIdAlreadyExists(String),
}

/// Use this structure to assign a host PCI device to the microVM through VFIO before booting the
/// kernel.
#[derive(Debug, Default, Clone, PartialEq, Eq)]
pub struct VfioDeviceConfig {
    /// Unique identifier of the device.
    pub id: String,
    /// Host sysfs path of the assigned PCI function, e.g. `/sys/bus/pci/devices/0000:01:00.0`. The
    /// device must already be bound to the `vfio-pci` driver on the host.
    pub path: String,
}

/// Wrapper for the collection that holds all the VFIO passthrough device configs.
#[derive(Debug)]
pub struct VfioBuilder {
    /// The list of VFIO device configs.
    pub configs: Vec<VfioDeviceConfig>,
}

/// Whether one of the configs has the id `id`.
pub open spec fn has_id(configs: Seq<VfioDeviceConfig>, id: Seq<char>) -> bool {
    exists|i: int| 0 <= i < configs.len() && (#[trigger] configs[i]).id@ == id
}

/// Whether no two configs have the same id.
pub open spec fn ids_differ(configs: Seq<VfioDeviceConfig>) -> bool {
    forall|i: int, j: int|
        0 <= i < j < configs.len() ==> (#[trigger] configs[i]).id@ != (#[trigger] configs[j]).id@
}

/// Whether adding `config` to the configs `before` can have the result `res` and leave the configs
/// `after`.
pub open spec fn insertion(
    before: Seq<VfioDeviceConfig>,
    config: VfioDeviceConfig,
    res: Result<(), VfioConfigError>,
    after: Seq<VfioDeviceConfig>,
) -> bool {
    if has_id(before, config.id@) {
        &&& res == Err::<(), VfioConfigError>(VfioConfigError::DeviceIdAlreadyExists(config.id))
        &&& after == before
    } else {
        &&& res is Ok
        &&& after == before.push(config)
    }
}

/// A config is added exactly where no other one has its id: it then comes last, behind the others as
/// they were. Else the configs are as they were, and the error names the id.
pub proof fn law_insertion(
    before: Seq<VfioDeviceConfig>,
    config: VfioDeviceConfig,
    res: Result<(), VfioConfigError>,
    after: Seq<VfioDeviceConfig>,
)
    requires
        insertion(before, config, res, after),
    ensures
        res is Ok <==> forall|i: int|
            0 <= i < before.len() ==> (#[trigger] before[i]).id@ != config.id@,
        after.len() == before.len() + if res is Ok {
            1int
        } else {
            0int
        },
        forall|i: int| 0 <= i < before.len() ==> #[trigger] after[i] == before[i],
        res is Ok ==> after.last() == config,
        res matches Err(VfioConfigError::DeviceIdAlreadyExists(id)) ==> id == config.id,
{
}

/// The message that a device with this id already exists.
pub open spec fn exists_message(id: Seq<char>) -> Seq<char> {
    "A VFIO device with id "@ + id + " already exists"@
}

/// The message names the whole id, between the same words: two ids have the same message only where
/// they are the same.
pub proof fn law_message_names_the_id(a: Seq<char>, b: Seq<char>)
    ensures
        exists_message(a).len() == "A VFIO device with id "@.len() + a.len()
            + " already exists"@.len(),
        exists_message(a).subrange(
            "A VFIO device with id "@.len() as int,
            ("A VFIO device with id "@.len() + a.len()) as int,
        ) == a,
        exists_message(a) == exists_message(b) ==> a == b,
{
    let first = "A VFIO device with id "@.len() as int;
    assert(exists_message(a).subrange(first, first + a.len()) =~= a);
    assert(exists_message(b).subrange(first, first + b.len()) =~= b);
}

impl VfioConfigError {
    /// The message of the error.
    pub fn message(&self) -> (text: String)
        ensures
            self matches VfioConfigError::DeviceIdAlreadyExists(id) ==> text@ == exists_message(id@),
            self matches VfioConfigError::DeviceIdAlreadyExists(id) ==> text@
                == "A VFIO device with id "@ + id@ + " already exists"@,
    {
        match self {
            VfioConfigError::DeviceIdAlreadyExists(id) => {
                let mut text = "A VFIO device with id ".to_string();
                text.append(id.as_str());
                text.append(" already exists");
                text
            },
        }
    }
}

impl Default for VfioBuilder {
    fn default() -> (builder: Self)
        ensures
            builder.configs@ == Seq::<VfioDeviceConfig>::empty(),
    {
        VfioBuilder { configs: Vec::new() }
    }
}

impl VfioBuilder {
    /// Whether no two devices have the same id.
    pub open spec fn wf(&self) -> bool {
        ids_differ(self.configs@)
    }

    /// Create an empty builder.
    pub fn new() -> (builder: Self)
        ensures
            builder.configs@ == Seq::<VfioDeviceConfig>::empty(),
            builder.wf(),
    {
        VfioBuilder::default()
    }

    /// Add a new VFIO device config, rejecting duplicate ids.
    pub fn insert(&mut self, config: VfioDeviceConfig) -> (res: Result<(), VfioConfigError>)
        ensures
            insertion(old(self).configs@, config, res, final(self).configs@),
            res is Err <==> has_id(old(self).configs@, config.id@),
            res is Ok ==> final(self).configs@ == old(self).configs@.push(config),
            res matches Err(VfioConfigError::DeviceIdAlreadyExists(id)) ==> id == config.id
                && final(self).configs@ == old(self).configs@,
            old(self).wf() ==> final(self).wf(),
            has_id(final(self).configs@, config.id@),
    {
        let mut i: usize = 0;
        while i < self.configs.len()
            invariant
                i <= self.configs@.len(),
                self.configs@ == old(self).configs@,
                forall|j: int| 0 <= j < i ==> (#[trigger] self.configs@[j]).id@ != config.id@,
            decreases self.configs@.len() - i,
        {
            if self.configs[i].id == config.id {
                proof {
                    assert(old(self).configs@[i as int].id@ == config.id@);
                }
                return Err(VfioConfigError::DeviceIdAlreadyExists(config.id));
            }
            i = i + 1;
        }
        let ghost id = config.id@;
        self.configs.push(config);
        proof {
            let last = self.configs@.len() - 1;
            assert(self.configs@[last].id@ == id);
            if old(self).wf() {
                assert forall|a: int, b: int| 0 <= a < b < self.configs@.len() implies (
                #[trigger] self.configs@[a]).id@ != (#[trigger] self.configs@[b]).id@ by {
                    assert(self.configs@[a] == old(self).configs@[a]);
                    if b < last {
                        assert(self.configs@[b] == old(self).configs@[b]);
                    }
                }
            }
        }
        Ok(())
    }
}

/// An id is among some configs and one more exactly where it is among them or that of the one more,
/// and among none where there are none; and the ids of the configs and one more differ exactly
/// where those of the configs do and that of the one more is not among them.
pub proof fn law_ids(configs: Seq<VfioDeviceConfig>, config: VfioDeviceConfig, id: Seq<char>)
    ensures
        !has_id(Seq::empty(), id),
        ids_differ(Seq::empty()),
        has_id(configs.push(config), id) <==> has_id(configs, id) || config.id@ == id,
        ids_differ(configs.push(config)) <==> ids_differ(configs) && !has_id(configs, config.id@),
{
    let more = configs.push(config);
    let last = configs.len() as int;
    assert(more[last] == config);
    if has_id(configs, id) {
        let i = choose|i: int| 0 <= i < configs.len() && (#[trigger] configs[i]).id@ == id;
        assert(more[i].id@ == id);
    }
    if has_id(more, id) {
        let i = choose|i: int| 0 <= i < more.len() && (#[trigger] more[i]).id@ == id;
        if i < last {
            assert(configs[i].id@ == id);
        }
    }
    if ids_differ(more) {
        assert forall|i: int, j: int| 0 <= i < j < configs.len() implies (
        #[trigger] configs[i]).id@ != (#[trigger] configs[j]).id@ by {
            assert(more[i].id@ != more[j].id@);
        }
        if has_id(configs, config.id@) {
            let i = choose|i: int|
                0 <= i < configs.len() && (#[trigger] configs[i]).id@ == config.id@;
            assert(more[i].id@ != more[last].id@);
        }
    }
    if ids_differ(configs) && !has_id(configs, config.id@) {
        assert forall|i: int, j: int| 0 <= i < j < more.len() implies (#[trigger] more[i]).id@ != (
        #[trigger] more[j]).id@ by {
            assert(more[i] == configs[i]);
            if j < last {
                assert(more[j] == configs[j]);
            }
        }
    }
}

} // verus!
