//! The persisted data model: named terminal instances and their status.

use vstd::prelude::*;

verus! {

/// Status of a terminal instance, persisted as a lowercase tag.
#[derive(Debug, Clone, Copy, PartialEq, Eq, Structural)]
pub enum InstanceStatus {
    Idle,
    Working,
    Waiting,
    Error,
}

/// One named terminal instance as it is persisted across restarts.
#[derive(Debug, Clone, PartialEq)]
pub struct Instance {
    pub id: String,
    pub name: String,
    pub cwd: String,
    pub status: InstanceStatus,
}

/// Mathematical model of an [`Instance`]: each text field as its
/// character sequence, together with the status.
pub struct InstanceModel {
    pub id: Seq<char>,
    pub name: Seq<char>,
    pub cwd: Seq<char>,
    pub status: InstanceStatus,
}

impl View for Instance {
    type V = InstanceModel;

    open spec fn view(&self) -> InstanceModel {
        InstanceModel { id: self.id@, name: self.name@, cwd: self.cwd@, status: self.status }
    }
}

/// Models of a whole instance list, in order.
pub open spec fn models(l: Seq<Instance>) -> Seq<InstanceModel> {
    l.map_values(|i: Instance| i@)
}

/// The full persisted document: an ordered list of instances.
#[derive(Debug, Clone)]
pub struct PersistedState {
    pub instances: Vec<Instance>,
}

impl View for PersistedState {
    type V = Seq<InstanceModel>;

    open spec fn view(&self) -> Seq<InstanceModel> {
        models(self.instances@)
    }
}

}
