//! Log sources that are streamed rather than read from a file.
use vstd::prelude::*;

use crate::config::logs::{multiline_view, MultilineConfig, MultilineView};

verus! {

/// How a source that is no file is read.
#[derive(Debug, PartialEq, Eq)]
pub enum StreamAccessMethod {
    DockerApi { container_id: String },
    Journald { unit: String },
    WindowsEventLog { channel: String },
}

/// What an access method is.
pub enum StreamAccessView {
    DockerApi(Seq<char>),
    Journald(Seq<char>),
    WindowsEventLog(Seq<char>),
}

impl View for StreamAccessMethod {
    type V = StreamAccessView;

    open spec fn view(&self) -> StreamAccessView {
        match self {
            StreamAccessMethod::DockerApi { container_id } => StreamAccessView::DockerApi(
                container_id@,
            ),
            StreamAccessMethod::Journald { unit } => StreamAccessView::Journald(unit@),
            StreamAccessMethod::WindowsEventLog { channel } => StreamAccessView::WindowsEventLog(
                channel@,
            ),
        }
    }
}

/// A source that is streamed.
#[derive(Debug)]
pub struct StreamingSourceConfig {
    pub log_source_id: String,
    pub access_method: StreamAccessMethod,
    pub endpoint: String,
    pub archive_id: String,
    pub repo_id: String,
    /// Whether the agent's identity is stamped into shipped metadata.
    pub stamp_resource_identifier: bool,
    pub multiline: Option<MultilineConfig>,
    pub config_hash: String,
}

/// What a streamed source is.
#[verifier::ext_equal]
pub struct StreamingView {
    pub log_source_id: Seq<char>,
    pub access_method: StreamAccessView,
    pub endpoint: Seq<char>,
    pub archive_id: Seq<char>,
    pub repo_id: Seq<char>,
    pub stamp_resource_identifier: bool,
    pub multiline: Option<MultilineView>,
    pub config_hash: Seq<char>,
}

impl View for StreamingSourceConfig {
    type V = StreamingView;

    open spec fn view(&self) -> StreamingView {
        StreamingView {
            log_source_id: self.log_source_id@,
            access_method: self.access_method@,
            endpoint: self.endpoint@,
            archive_id: self.archive_id@,
            repo_id: self.repo_id@,
            stamp_resource_identifier: self.stamp_resource_identifier,
            multiline: multiline_view(self.multiline),
            config_hash: self.config_hash@,
        }
    }
}

} // verus!
