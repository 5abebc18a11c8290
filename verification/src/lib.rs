//! Passthrough of host PCI devices to a guest through VFIO.
//!
//! The library decides; it makes no call to the host. It holds the configuration of passthrough
//! devices ([`config`], [`request`]), the steps that assign a device ([`resources`]), and the
//! emulation of an assigned device: its configuration space, MSI-X and trapped BARs ([`device`],
//! [`msix`]), and the placing and mapping of its BARs ([`bars`], [`mapping`], [`region`],
//! [`ranges`], [`allocator`], [`align`]). What setting up the BARs leads to is proved in [`placing`],
//! [`plan`] and [`backing`].

pub mod align;
pub mod allocator;
pub mod backing;
pub mod bars;
pub mod config;
pub mod device;
pub mod error;
pub mod mapping;
pub mod msix;
pub mod placing;
pub mod plan;
pub mod ranges;
pub mod region;
pub mod request;
pub mod resources;
