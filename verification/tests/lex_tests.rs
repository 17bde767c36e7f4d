use pal_forth::lex::DelayedStr;
use pal_forth::lex::StackAlloc;
use pal_forth::lex::StackAllocator;
use pal_forth::lex::StackWriter;

#[test]
fn stack_alloc_aligment() {
    // 1 KiB is plenty for the test.
    let mut arena = StackAlloc::from_slice(1024);

    /* ── plain u16 (align = 2) ─────────────────────────────────── */
    let a1 = arena.alloc_aligned(2, 2).expect("u16 should fit");
    assert_eq!(a1 % 2, 0, "u16 not aligned");

    /* ── overalligned tiny struct (align = 32 > payload) ───────── */
    let a2 = arena.alloc_aligned(32, 32).expect("OverAligned");
    assert_eq!(a2 % 32, 0, "OverAligned mis-aligned");

    arena.put(a2, &[2]).unwrap();
    let slot = DelayedStr::new_offset(0, a2, 1);
    assert_eq!(arena.bytes(&slot.0).unwrap(), &[2]);

    /* ── zero-sized type (size = 0, align = 1) ─────────────────── */
    let a3 = arena.alloc_aligned(0, 1).expect("ZST");
    assert_eq!(a3 % 1, 0);

    /* ── an array with odd size/alignment interplay ────────────── */
    let a4 = arena.alloc_aligned(24, 8).expect("[u64;3]");
    assert_eq!(a4 % 8, 0, "array mis-aligned");

    /* ── near-exhaustion check: fill what's left in 8-byte chunks ─ */
    loop {
        match arena.alloc_aligned(8, 8) {
            Some(_) => continue,
            None => break, // expected out-of-memory
        }
    }
    assert!(arena.alloc_aligned(8, 8).is_none(), "OOM must remain OOM");
}

#[test]
fn stack_writer_write_and_finish() {
    let mut arena = StackAlloc::from_slice(1024); // 1 KiB arena

    let mut writer = StackWriter::new(&arena);
    writer.write_str(&mut arena, "hello").unwrap();
    writer.write_str(&mut arena, " world ").unwrap();
    writer.write_int(&mut arena, 42).unwrap();

    let range = writer.finish(&arena);
    let result = arena.text(&range).unwrap();
    assert_eq!(result, "hello world 42");

    // Make sure what we wrote is indeed valid and no extra allocations happened
    let remaining_space = arena.len();
    let used_bytes = 1024 - remaining_space;

    assert!(
        used_bytes >= result.len(),
        "allocator should have used at least result length"
    );
}

#[test]
fn test_stack_allocator_basic() {
    let mut alloc: StackAllocator<Box<i32>> = StackAllocator::new(8);

    let a = alloc.save(Box::new(10)).unwrap();
    let b = alloc.save(Box::new(20)).unwrap();

    assert_eq!(**alloc.get(a).unwrap(), 10);
    assert_eq!(**alloc.get(b).unwrap(), 20);

    let cp = alloc.check_point();
    let c = alloc.save(Box::new(30)).unwrap();
    assert_eq!(*alloc.get(c).unwrap(), Box::new(30));

    alloc.goto_checkpoint(cp);

    // allocation after rollback should overwrite 30
    let d = alloc.save(Box::new(99)).unwrap();
    assert_eq!(*alloc.get(d).unwrap(), Box::new(99));
    assert_eq!(d, c);
}

#[test]
fn test_string_delayed() {
    let base = "---hello world";
    let s = base.trim_start_matches('-');

    let mut arena = StackAlloc::from_slice(64);
    arena.alloc_aligned(5, 1).unwrap();
    let mut writer = StackWriter::new(&arena);
    writer.write_str(&mut arena, base).unwrap();
    let whole = writer.finish(&arena);
    let arena_base = whole.0.first();

    // the address of `s`, taken as an offset from the start of `base`
    let base_at = 1000;
    let s_at = base_at + (base.len() - s.len());
    let mut delayed = DelayedStr::new_offset(base_at, s_at, s.len());
    delayed.offset_from(arena_base);

    assert_eq!(s, arena.text(&delayed).unwrap())
}
