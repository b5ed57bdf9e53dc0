pub mod stacks;
