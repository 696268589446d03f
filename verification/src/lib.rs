//! Two linked lists with machine-checked contracts.
//!
//! [`linked_list::LinkedList`] is a doubly linked list that grows and shrinks
//! at both ends; [`singly_linked_list::SinglyLinkedList`] is a stack-like list
//! with forward traversal. Both are described by the sequence of their
//! elements, and every operation states how it changes that sequence.

pub mod linked_list;
pub mod model;
pub mod singly_linked_list;
