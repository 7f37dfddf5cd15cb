//! Schedulers: the two backends that turn an action and a group of
//! directories into work. The `bash` backend executes scripts immediately;
//! the `slurm` backend submits them to a queue.

pub mod bash;
pub mod slurm;
