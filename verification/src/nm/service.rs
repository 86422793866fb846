//! The requests of the panel, gathered on one value that worker threads share.
use vstd::prelude::*;
use crate::text::chars_of;
use crate::nm::types::{IpConfig, NetworkSnapshot, NmError};
use crate::nm::reply::{Reply, Step, StepView};
use crate::nm::cli::{
    activate_connection, connect_at, connect_wifi, deactivate_connection, disconnect_at,
    disconnect_wifi, down_args, forget_at, forget_wifi, password_view, read_ip_at,
    read_ipv4_config, set_wifi_enabled, single_at, snapshot, snapshot_at, radio_set_args, up_args,
    write_ip_at,
};

verus! {

/// The NetworkManager requests of the panel. It holds no state, so any
/// thread may use it.
#[derive(Clone, Debug)]
pub struct NetworkService;

/// Saving IPv4 settings: writing them, then bringing the profile up.
pub open spec fn save_at(uuid: Seq<char>, c: crate::nm::types::IpConfigView, rs: Seq<Reply>) -> StepView<(), crate::nm::types::NmErrorView> {
    let (w, k) = write_ip_at(uuid, c, rs);
    match w {
        StepView::Done(Ok(())) => single_at(up_args(uuid), rs, k).0,
        other => other,
    }
}

impl Default for NetworkService {
    fn default() -> (s: NetworkService)
        ensures
            s == NetworkService,
    {
        NetworkService
    }
}

impl NetworkService {
    /// The service; it holds nothing.
    pub fn new() -> (s: NetworkService)
        ensures
            s == NetworkService,
    {
        NetworkService
    }

    /// See [`snapshot`].
    pub fn snapshot(&self, include_wifi: bool, rescan_wifi: bool, replies: &[Reply]) -> (step: Step<NetworkSnapshot, NmError>)
        ensures
            step.deep_view() == snapshot_at(include_wifi, rescan_wifi, replies@),
    {
        snapshot(include_wifi, rescan_wifi, replies)
    }

    /// See [`set_wifi_enabled`].
    pub fn set_wifi_enabled(&self, enabled: bool, replies: &[Reply]) -> (step: Step<(), NmError>)
        ensures
            step.deep_view() == single_at(radio_set_args(enabled), replies@, 0).0,
    {
        set_wifi_enabled(enabled, replies)
    }

    /// See [`connect_wifi`].
    pub fn connect_wifi(&self, ssid: &str, password: Option<&str>, replies: &[Reply]) -> (step: Step<(), NmError>)
        ensures
            step.deep_view() == connect_at(ssid@, password_view(password), replies@),
    {
        connect_wifi(ssid, password, replies)
    }

    /// See [`disconnect_wifi`].
    pub fn disconnect_wifi(&self, replies: &[Reply]) -> (step: Step<(), NmError>)
        ensures
            step.deep_view() == disconnect_at(replies@),
    {
        disconnect_wifi(replies)
    }

    /// See [`forget_wifi`].
    pub fn forget_wifi(&self, ssid: &str, replies: &[Reply]) -> (step: Step<(), NmError>)
        ensures
            step.deep_view() == forget_at(ssid@, replies@),
    {
        forget_wifi(ssid, replies)
    }

    /// See [`activate_connection`].
    pub fn activate_connection(&self, uuid: &str, replies: &[Reply]) -> (step: Step<(), NmError>)
        ensures
            step.deep_view() == single_at(up_args(uuid@), replies@, 0).0,
    {
        activate_connection(uuid, replies)
    }

    /// See [`deactivate_connection`].
    pub fn deactivate_connection(&self, uuid: &str, replies: &[Reply]) -> (step: Step<(), NmError>)
        ensures
            step.deep_view() == single_at(down_args(uuid@), replies@, 0).0,
    {
        deactivate_connection(uuid, replies)
    }

    /// See [`read_ipv4_config`].
    pub fn read_ip_config(&self, uuid: &str, replies: &[Reply]) -> (step: Step<IpConfig, NmError>)
        ensures
            step.deep_view() == read_ip_at(uuid@, replies@),
    {
        read_ipv4_config(uuid, replies)
    }

    /// Writes the IPv4 settings of `uuid`, then brings the profile up.
    pub fn save_ip_config(&self, uuid: &str, config: &IpConfig, replies: &[Reply]) -> (step: Step<(), NmError>)
        ensures
            step.deep_view() == save_at(uuid@, config.deep_view(), replies@),
    {
        let u = chars_of(uuid);
        let (w, k) = crate::nm::cli::write_ip_steps(u.as_slice(), config, replies);
        match w {
            Step::Done(Ok(())) => crate::nm::cli::single_steps(crate::nm::cli::up_arg_list(u.as_slice()), replies, k).0,
            other => other,
        }
    }
}

} // verus!
