use hipfire_quantize::hfq::{build_prefix, spill_list, HfqTensor, QuantType};

fn tensor(name: &str, data: Vec<u8>, spilled_len: u64) -> HfqTensor {
    HfqTensor {
        name: name.to_string(),
        quant_type: QuantType::MQ4G256,
        shape: vec![2, 256],
        group_size: 256,
        data,
        spilled_len,
    }
}

fn u32_at(data: &[u8], at: usize) -> u32 {
    u32::from_le_bytes([data[at], data[at + 1], data[at + 2], data[at + 3]])
}

fn u64_at(data: &[u8], at: usize) -> u64 {
    let mut b = [0u8; 8];
    b.copy_from_slice(&data[at..at + 8]);
    u64::from_le_bytes(b)
}

#[test]
fn type_numbers_are_stable() {
    let want: [(QuantType, u8); 25] = [
        (QuantType::Q4F16G64, 0),
        (QuantType::F16, 1),
        (QuantType::F32, 2),
        (QuantType::Q8F16, 3),
        (QuantType::Q4K, 4),
        (QuantType::Q8HFQ, 5),
        (QuantType::HFQ4G256, 6),
        (QuantType::HFQ4G128, 7),
        (QuantType::HFQ6G256, 8),
        (QuantType::HFQ2G256, 9),
        (QuantType::HFQ2G128, 10),
        (QuantType::HFQ3G256, 11),
        (QuantType::HFQ3G128, 12),
        (QuantType::MQ4G256, 13),
        (QuantType::MQ8G256, 14),
        (QuantType::MQ6G256, 15),
        (QuantType::BF16, 16),
        (QuantType::MQ3G256, 17),
        (QuantType::MQ2G256, 18),
        (QuantType::MQ2G256Lloyd, 19),
        (QuantType::MQ3G256Lloyd, 20),
        (QuantType::HFQ1G128, 21),
        (QuantType::I32, 22),
        (QuantType::HFP4G32, 30),
        (QuantType::MFP4G32, 33),
    ];
    for (q, code) in want {
        assert_eq!(q.code(), code);
    }
}

#[test]
fn prefix_holds_header_metadata_and_index() {
    let tensors = [tensor("a.weight", vec![7; 272], 0), tensor("b\u{e9}", Vec::new(), 5)];
    let prefix = build_prefix(6, "{\"k\":1}", &tensors);
    assert_eq!(prefix.len(), 4096);
    assert_eq!(&prefix[0..4], b"HFQM");
    assert_eq!(u32_at(&prefix, 4), 1);
    assert_eq!(u32_at(&prefix, 8), 6);
    assert_eq!(u32_at(&prefix, 12), 2);
    assert_eq!(u64_at(&prefix, 16), 32);
    assert_eq!(u64_at(&prefix, 24), 4096);
    assert_eq!(&prefix[32..39], b"{\"k\":1}");
    let index = 39;
    assert_eq!(u32_at(&prefix, index), 2);
    let first = index + 4;
    assert_eq!(&prefix[first..first + 2], &[8, 0]);
    assert_eq!(&prefix[first + 2..first + 10], b"a.weight");
    assert_eq!(&prefix[first + 10..first + 12], &[13, 2]);
    assert_eq!(u32_at(&prefix, first + 12), 2);
    assert_eq!(u32_at(&prefix, first + 16), 256);
    assert_eq!(u32_at(&prefix, first + 20), 256);
    assert_eq!(u64_at(&prefix, first + 24), 272);
    let second = first + 32;
    assert_eq!(&prefix[second..second + 5], &[3, 0, b'b', 0xc3, 0xa9]);
    assert_eq!(u64_at(&prefix, second + 19), 5);
    assert!(prefix[second + 27..].iter().all(|b| *b == 0));
}

#[test]
fn data_starts_at_the_next_page() {
    // A header of 32 bytes and an empty index of 4 leave 4060 bytes of the first page.
    let fits = "x".repeat(4060);
    assert_eq!(build_prefix(0, &fits, &[]).len(), 4096);
    let spills = "x".repeat(4061);
    assert_eq!(build_prefix(0, &spills, &[]).len(), 8192);
}

#[test]
fn spilling_waits_for_the_threshold() {
    let mut tensors = vec![
        tensor("a", vec![1; 10], 0),
        tensor("b", Vec::new(), 20),
        tensor("c", Vec::new(), 0),
        tensor("d", vec![2; 5], 0),
    ];
    assert_eq!(spill_list(&tensors, 16), Vec::<usize>::new());
    assert_eq!(spill_list(&tensors, 15), vec![0, 3]);
    assert_eq!(spill_list(&tensors, 0), vec![0, 3]);
    for i in spill_list(&tensors, 15) {
        let len = tensors[i].data.len() as u64;
        tensors[i].mark_spilled(len);
        assert_eq!(tensors[i].data_size(), len);
    }
    assert_eq!(spill_list(&tensors, 0), Vec::<usize>::new());
    tensors.push(tensor("e", vec![3; 4], 0));
    assert_eq!(spill_list(&tensors, 1), vec![4]);
}

#[test]
fn data_is_found_from_the_index() {
    let tensors = [
        tensor("one", vec![1; 300], 0),
        tensor("two", Vec::new(), 0),
        tensor("three", vec![3; 41], 0),
    ];
    let mut file = build_prefix(5, "{}", &tensors);
    for t in &tensors {
        file.extend_from_slice(&t.data);
    }
    let mut start = u64_at(&file, 24) as usize;
    let mut at = 32 + 2 + 4;
    for t in &tensors {
        let name_len = u16::from_le_bytes([file[at], file[at + 1]]) as usize;
        assert_eq!(&file[at + 2..at + 2 + name_len], t.name.as_bytes());
        let dims = file[at + 2 + name_len + 1] as usize;
        let size_at = at + 2 + name_len + 2 + 4 * dims + 4;
        let size = u64_at(&file, size_at) as usize;
        assert_eq!(&file[start..start + size], t.data.as_slice());
        start += size;
        at = size_at + 8;
    }
    assert_eq!(start, file.len());
}

#[test]
fn spilling_bounds_what_is_held() {
    let mut tensors: Vec<HfqTensor> = Vec::new();
    for i in 0..10 {
        tensors.push(tensor("t", vec![i; 30], 0));
        for due in spill_list(&tensors, 100) {
            let len = tensors[due].data.len() as u64;
            tensors[due].mark_spilled(len);
        }
        let held: usize =
            tensors.iter().filter(|t| t.spilled_len == 0).map(|t| t.data.len()).sum();
        assert!(held < 100);
        assert!(tensors.iter().all(|t| t.data_size() == 30));
    }
}

/// Writes a file as it is written from memory and from the spill file.
fn whole_file(tensors: &[HfqTensor], spill: &[u8]) -> Vec<u8> {
    let mut file = build_prefix(3, "{\"a\":0}", tensors);
    let mut at = 0;
    for t in tensors {
        if t.spilled_len > 0 {
            file.extend_from_slice(&spill[at..at + t.spilled_len as usize]);
            at += t.spilled_len as usize;
        } else {
            file.extend_from_slice(&t.data);
        }
    }
    file
}

#[test]
fn spilling_keeps_the_file() {
    let lengths = [5usize, 0, 40, 1, 33, 0, 70, 2];
    let make = |i: usize| tensor(&format!("t{i}"), vec![i as u8 + 1; lengths[i]], 0);
    let plain: Vec<HfqTensor> = (0..lengths.len()).map(make).collect();
    for threshold in [0usize, 1, 30, 60, 1000] {
        let mut tensors: Vec<HfqTensor> = Vec::new();
        let mut spill: Vec<u8> = Vec::new();
        for i in 0..lengths.len() {
            tensors.push(make(i));
            for due in spill_list(&tensors, threshold) {
                spill.extend_from_slice(&tensors[due].data);
                let len = tensors[due].data.len() as u64;
                tensors[due].mark_spilled(len);
            }
        }
        assert_eq!(whole_file(&tensors, &spill), whole_file(&plain, &[]));
    }
}
