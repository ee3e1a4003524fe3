pub mod accumulate_counts;
