//! The parts of Docker API documents that the filters read or change.

use vstd::prelude::*;

use crate::utils::Labels;

verus! {

/// The error document Docker answers with, such as for an unknown container.
pub struct DockerErrorMessage {
    pub message: String,
}

impl DockerErrorMessage {
    /// The answer Docker gives for a container id it does not know.
    pub fn no_such_container(id: &str) -> (e: DockerErrorMessage)
        ensures
            e.message@ == "No such container: "@ + id@,
    {
        let mut message = "No such container: ".to_owned();
        message.append(id);
        DockerErrorMessage { message }
    }
}

/// An entry of the container list.
pub struct ContainerSummary {
    pub id: Option<String>,
    pub names: Option<Vec<String>>,
    pub labels: Option<Labels>,
    pub message: Option<String>,
}

/// The configuration part of a container inspection.
pub struct ContainerConfig {
    pub env: Option<Vec<String>>,
    pub labels: Option<Labels>,
}

/// A container inspection.
pub struct ContainerInspect {
    pub id: Option<String>,
    pub name: Option<String>,
    pub config: Option<ContainerConfig>,
    pub message: Option<String>,
}

impl ContainerInspect {
    /// Empties the environment list of the inspected container, leaving all else as it was.
    pub fn scrub_env(&mut self)
        requires
            old(self).config is Some,
        ensures
            final(self).config is Some,
            final(self).config->0.env matches Some(e) && e@.len() == 0,
            final(self).config->0.labels == old(self).config->0.labels,
            final(self).id == old(self).id,
            final(self).name == old(self).name,
            final(self).message == old(self).message,
    {
        match &mut self.config {
            Some(c) => {
                c.env = Some(Vec::new());
            },
            None => {},
        }
    }
}

} // verus!
