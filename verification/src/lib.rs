pub mod array_list;
pub mod binary_search_list;
pub mod bubble_sort;
pub mod doubly_linked_list;
pub mod elem;
pub mod queue;
pub mod quick_sort;
pub mod stack;
pub mod two_crystal_balls;
