use std::cell::RefCell;
use std::rc::Rc;
use stupid_allocator::allocator::Allocator;
use stupid_allocator::free_list::is_consistent;
use stupid_allocator::StupidAllocator;

/// A stand-in for the process's data segment: the bytes between `base` and
/// the break.
struct Segment {
    base: usize,
    bytes: Vec<u8>,
    limit: usize,
}

impl Segment {
    fn new(base: usize, limit: usize) -> Rc<RefCell<Segment>> {
        Rc::new(RefCell::new(Segment { base, bytes: Vec::new(), limit }))
    }

    fn write(&mut self, at: usize, value: &[u8]) {
        let from: usize = at - self.base;
        self.bytes[from..from + value.len()].copy_from_slice(value);
    }

    fn read(&self, at: usize, len: usize) -> Vec<u8> {
        let from: usize = at - self.base;
        self.bytes[from..from + len].to_vec()
    }
}

/// The break primitive over a segment: moves the break by `increment` bytes
/// and answers with the break as it was, or with `usize::MAX` past the limit.
fn primitive(segment: &Rc<RefCell<Segment>>) -> impl Fn(isize) -> usize {
    let segment = Rc::clone(segment);
    move |increment: isize| {
        let mut s = segment.borrow_mut();
        let old: usize = s.base + s.bytes.len();
        if increment < 0 {
            return usize::MAX;
        }
        let grown: usize = s.bytes.len() + increment as usize;
        if grown > s.limit {
            return usize::MAX;
        }
        s.bytes.resize(grown, 0);
        old
    }
}

#[test]
fn test_slice_allocation() {
    let segment = Segment::new(0x10000, 1 << 20);
    let allocator = StupidAllocator::new(primitive(&segment));
    let ptr: usize = allocator.allocate(2, 1).unwrap();
    segment.borrow_mut().write(ptr, &[69]);
    segment.borrow_mut().write(ptr + 1, &[255]);
    assert_eq!(segment.borrow().read(ptr, 2), [69, 255]);
}

#[test]
fn test_vec_allocation() {
    let segment = Segment::new(0x10000, 1 << 20);
    let allocator = StupidAllocator::new(primitive(&segment));
    // A growable sequence of `i32` that doubles its capacity when full.
    let mut ptr: usize = 0;
    let mut cap: usize = 0;
    let mut len: usize = 0;
    for i in 1..1000 {
        let value: i32 = i;
        if len == cap {
            let wider: usize = if cap == 0 { 4 } else { cap * 2 };
            let fresh: usize = allocator.allocate(wider * 4, 4).unwrap();
            assert_eq!(fresh % 4, 0);
            if cap > 0 {
                let old: Vec<u8> = segment.borrow().read(ptr, len * 4);
                segment.borrow_mut().write(fresh, &old);
                allocator.deallocate(ptr).unwrap();
            }
            ptr = fresh;
            cap = wider;
        }
        segment.borrow_mut().write(ptr + len * 4, &value.to_le_bytes());
        len += 1;
    }
    for i in 1..1000 {
        let expected: i32 = i;
        let at: usize = ptr + ((i - 1) as usize) * 4;
        let bytes: Vec<u8> = segment.borrow().read(at, 4);
        assert_eq!(i32::from_le_bytes([bytes[0], bytes[1], bytes[2], bytes[3]]), expected);
    }
    let blocks = allocator.dump_blocks();
    assert!(is_consistent(&blocks[1..].to_vec()));
}

#[test]
fn test_vec_alloc() {
    let segment = Segment::new(0x10000, 16 << 20);
    let allocator = Allocator::new(primitive(&segment));
    let capacity: usize = 1000000;
    let ptr: usize = allocator.allocate(capacity * 8, 8).unwrap();
    assert_eq!(ptr % 8, 0);
    let blocks = allocator.dump_blocks();
    assert_eq!(blocks.len(), 2);
    assert_eq!(blocks[1].data, ptr);
    assert_eq!(blocks[1].size, capacity * 8);
    for i in 0..capacity {
        segment.borrow_mut().write(ptr + i * 8, &i.to_le_bytes());
    }
    for i in 0..capacity {
        let bytes: Vec<u8> = segment.borrow().read(ptr + i * 8, 8);
        let mut word: [u8; 8] = [0; 8];
        word.copy_from_slice(&bytes);
        assert_eq!(i, usize::from_le_bytes(word));
    }
}

#[test]
fn written_bytes_read_back_unchanged() {
    let segment = Segment::new(0x40000, 1 << 20);
    let allocator = Allocator::new(primitive(&segment));
    let sizes: [usize; 6] = [1, 7, 64, 300, 4096, 33];
    let mut regions: Vec<(usize, usize)> = Vec::new();
    for (k, size) in sizes.iter().enumerate() {
        let ptr: usize = allocator.allocate(*size, 1 << k).unwrap();
        regions.push((ptr, *size));
    }
    // free one in the middle and take it again, so that a reused block is among them
    allocator.deallocate(regions[2].0).unwrap();
    regions[2] = (allocator.allocate(60, 4).unwrap(), 60);
    for (k, (ptr, size)) in regions.iter().enumerate() {
        let pattern: Vec<u8> = (0..*size).map(|i| (i * 31 + k * 7) as u8).collect();
        segment.borrow_mut().write(*ptr, &pattern);
    }
    for (k, (ptr, size)) in regions.iter().enumerate() {
        let pattern: Vec<u8> = (0..*size).map(|i| (i * 31 + k * 7) as u8).collect();
        assert_eq!(segment.borrow().read(*ptr, *size), pattern);
    }
}
