//! Tools for building GameCube game modifications: conversion of relocatable
//! PowerPC ELF objects into REL (relocatable module) files, and packing of
//! payloads into GCI memory-card containers.

pub mod bebytes;
pub mod elf;
pub mod elf2rel;
pub mod errors;
pub mod gcipack;
pub mod laws;
pub mod reloc;
pub mod symmap;
