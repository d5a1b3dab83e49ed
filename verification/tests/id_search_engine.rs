use std::collections::HashSet;

use burdbot::id_search_engine::{
    snowflake_len, FuzzyMatchedId, SnowflakeFuzzyMatch, SnowflakeIdSearchEngine, DEFAULT_LOAD_FACTOR,
    MIN_ID_NUMBER, TIMESTAMP_SIZE,
};
use rand::distributions::Uniform;
use rand::{Rng, SeedableRng};

type Id = u64;

const INITIAL_CAPACITY_FACTOR: f64 = 1.2;
const LOAD_FACTOR_SHRINK_LIMIT: f64 = 3. / 8.;
const REALISTIC_MAX_ID: Id = 999_999_999_999_999_999;

fn random_realistic_snowflakes(count: usize) -> Vec<Id> {
    let rng = rand_pcg::Pcg64Mcg::seed_from_u64(129388342034342);

    rng.sample_iter(Uniform::new_inclusive(MIN_ID_NUMBER, REALISTIC_MAX_ID)).take(count).collect::<Vec<_>>()
}

fn gen_fuzzy_match(str: &str, lower: usize, upper: usize) -> SnowflakeFuzzyMatch {
    let id = &str[lower..str.len() - upper];

    SnowflakeFuzzyMatch {
        fuzzy_id: FuzzyMatchedId::try_from_str(id).expect("IDs in tests should always be valid numbers."),
        left_wildcards: lower as u32,
        right_wildcards: upper as u32,
    }
}

#[test]
fn fuzzy_matched_id_creation_test() {
    let mut rng = rand_pcg::Pcg64Mcg::seed_from_u64(129388342034342);

    for _ in 0..10000 {
        let id = rng.gen::<Id>();
        let fuzzy_id = FuzzyMatchedId::from_id(id);

        assert_eq!(fuzzy_id.leading_zeros, 0);
        assert_eq!(fuzzy_id.no_leading_zeros_id, id);
    }

    for _ in 0..10000 {
        let rand_id = rng.gen::<Id>() / 1000;
        let mut id = rand_id.to_string();
        let num_leading_zeros = rng.gen_range(0..3);

        for _ in 0..num_leading_zeros {
            id.insert(0, '0');
        }

        let fuzzy_id = FuzzyMatchedId::try_from_str(id.as_str()).unwrap();

        assert_eq!(fuzzy_id.leading_zeros, num_leading_zeros);
        assert_eq!(fuzzy_id.no_leading_zeros_id, rand_id);
    }
}

#[test]
fn snowflake_len_test() {
    assert_eq!(snowflake_len(861128391953352906), 18);
    assert_eq!(snowflake_len(83919533), 8);

    let mut rand = rand_pcg::Pcg64Mcg::seed_from_u64(123863);

    for len in 6..20 {
        for _ in 0..100_000 {
            let random_float: f64 = rand.gen_range(0.1..1.0);
            let random_id = random_float * 10u64.pow(len) as f64;

            assert_eq!(len, snowflake_len(random_id as Id), "Snowflake len test failed for {}", random_id as Id);
        }
    }
}

#[test]
fn snowflake_fuzzy_match_test() {
    for id in rand_pcg::Pcg64Mcg::seed_from_u64(432563546374)
        .sample_iter(Uniform::new_inclusive(10_000_000_000, MIN_ID_NUMBER / 100))
        .take(10_000)
    {
        let mut fuzzy_1 =
            SnowflakeFuzzyMatch { fuzzy_id: FuzzyMatchedId::from_id(id), left_wildcards: 2, right_wildcards: 2 };
        let mut id_string = id.to_string();
        id_string.insert_str(0, "72");
        id_string.push_str("19");

        let id: Id = id_string.parse().unwrap();

        assert_eq!(fuzzy_1, id);

        id_string.pop();
        let id: Id = id_string.parse().unwrap();

        assert_ne!(fuzzy_1, id);

        fuzzy_1.right_wildcards -= 1;

        assert_eq!(fuzzy_1, id);

        fuzzy_1.left_wildcards -= 1;
        fuzzy_1.right_wildcards += 1;

        assert_ne!(fuzzy_1, id);

        fuzzy_1.left_wildcards += 1;
        fuzzy_1.right_wildcards -= 1;

        fuzzy_1.left_wildcards -= 1;
        id_string.remove(0);
        let id: Id = id_string.parse().unwrap();

        assert_eq!(fuzzy_1, id);

        fuzzy_1.left_wildcards -= 1;
        id_string.remove(0);
        let id: Id = id_string.parse().unwrap();

        assert_eq!(fuzzy_1, id);

        fuzzy_1.right_wildcards -= 1;
        id_string.pop();
        fuzzy_1.left_wildcards += 1;
        id_string.insert(0, '2');
        let id: Id = id_string.parse().unwrap();

        assert_eq!(fuzzy_1, id);

        fuzzy_1.left_wildcards -= 1;
        fuzzy_1.right_wildcards += 1;

        assert_ne!(fuzzy_1, id);
    }
}

#[test]
fn realistic_snowflake_fuzzy_match_true_cases_test() {
    let snowflakes = random_realistic_snowflakes(10_000);

    for snowflake in snowflakes.iter().copied().take(10_000) {
        let str = snowflake.to_string();

        for i in 0..6 {
            for j in 0..6 {
                let snowflake_match = gen_fuzzy_match(str.as_str(), i, j);

                assert_eq!(snowflake_match, snowflake);
            }
        }
    }
}

#[test]
fn realistic_snowflake_fuzzy_match_false_cases_test() {
    fn gen_number_length_not_num(num: Id, len: usize, rand: &mut impl Iterator<Item = char>) -> String {
        let num_as_str = num.to_string();
        let mut number = String::with_capacity(len);

        while number.is_empty() || number == num_as_str {
            number.clear();

            for _ in 0..len {
                let digit = rand.next().unwrap();

                number.push(digit);
            }
        }

        number
    }

    let rand = rand_pcg::Pcg64Mcg::seed_from_u64(854342512);
    let mut char_gen = rand.sample_iter(Uniform::new_inclusive('0', '9'));
    let snowflakes = random_realistic_snowflakes(10_000);

    for snowflake in snowflakes.iter().copied().take(10_000) {
        let str = snowflake.to_string();

        for left in 0..4 {
            for right in 0..4 {
                let mut same_len_non_snowflake_1 = gen_number_length_not_num(snowflake, str.len(), &mut char_gen);
                let subtracted_fuzzy_match = gen_fuzzy_match(same_len_non_snowflake_1.as_str(), left, right);

                assert_ne!(subtracted_fuzzy_match, snowflake);

                for _ in 0..left {
                    same_len_non_snowflake_1.insert(0, char_gen.next().unwrap());
                }

                for _ in 0..right {
                    same_len_non_snowflake_1.push(char_gen.next().unwrap());
                }

                assert_ne!(gen_fuzzy_match(same_len_non_snowflake_1.as_str(), left, right), snowflake);
            }
        }
    }
}

#[test]
fn snowflake_leading_zero_test() {
    fn create_fuzzy_snowflake(left: u32, right: u32, leading_zeros: u8, id: Id) -> SnowflakeFuzzyMatch {
        let fuzzy_id = FuzzyMatchedId { leading_zeros, no_leading_zeros_id: id };

        SnowflakeFuzzyMatch::new(fuzzy_id, left, right)
    }

    let zero = create_fuzzy_snowflake(0, 0, 0, 0);
    let four_zero = create_fuzzy_snowflake(0, 0, 3, 0);
    let zero_300 = create_fuzzy_snowflake(0, 0, 1, 300);
    let x_0 = create_fuzzy_snowflake(1, 0, 0, 0);
    let x_0000 = create_fuzzy_snowflake(1, 0, 3, 0);
    let x_0300 = create_fuzzy_snowflake(1, 0, 1, 300);
    let x_0009245 = create_fuzzy_snowflake(1, 0, 3, 9245);
    let xx_0_x = create_fuzzy_snowflake(2, 1, 0, 0);
    let xx_000000_x = create_fuzzy_snowflake(2, 1, 5, 0);
    let xx_005951_x = create_fuzzy_snowflake(2, 1, 2, 5951);

    assert_ne!(zero, 1000);

    assert_ne!(four_zero, 10);
    assert_ne!(four_zero, 100);
    assert_ne!(four_zero, 1000);
    assert_ne!(four_zero, 10000);

    assert_eq!(zero_300, 300);
    assert_ne!(zero_300, 30);
    assert_ne!(zero_300, 3000);
    assert_ne!(zero_300, 30000);

    assert_eq!(x_0, 50);
    assert_ne!(x_0, 500);

    assert_eq!(x_0000, 20000);
    assert_eq!(x_0000, 80000);
    assert_ne!(x_0000, 2000);
    assert_ne!(x_0000, 200);
    assert_ne!(x_0000, 20);
    assert_ne!(x_0000, 2);

    assert_eq!(x_0300, 10300);
    assert_eq!(x_0300, 90300);
    assert_ne!(x_0300, 300);
    assert_ne!(x_0300, 2300);

    assert_eq!(x_0009245, 3_0009245);
    assert_ne!(x_0009245, 5009245);
    assert_ne!(x_0009245, 709245);
    assert_ne!(x_0009245, 69245);
    assert_ne!(x_0009245, 9245);

    assert_eq!(xx_0_x, 8705);
    assert_eq!(xx_0_x, 1000);
    assert_ne!(xx_0_x, 10000);
    assert_ne!(xx_0_x, 604);
    assert_ne!(xx_0_x, 3);

    assert_eq!(xx_000000_x, 740000005);
    assert_eq!(xx_000000_x, 100000000);
    assert_ne!(xx_000000_x, 43000000);
    assert_ne!(xx_000000_x, 1000000000);

    assert_eq!(xx_005951_x, 760059513);
    assert_eq!(xx_005951_x, 100059510);
    assert_ne!(xx_005951_x, 4460059515);
    assert_ne!(xx_005951_x, 3790059515);
}

#[test]
fn init_wildcard_array_test() {
    let vec = SnowflakeIdSearchEngine::<0>::initialize_wildcard_vector();
    let vec_2 = SnowflakeIdSearchEngine::<1>::initialize_wildcard_vector();
    let vec_3 = SnowflakeIdSearchEngine::<2>::initialize_wildcard_vector();
    let vec_4 = SnowflakeIdSearchEngine::<3>::initialize_wildcard_vector();

    assert_eq!(vec, vec![]);
    assert_eq!(vec_2, vec![(0, 1), (1, 0), (1, 1)]);
    assert_eq!(vec_3, vec![(0, 1), (1, 0), (0, 2), (1, 1), (2, 0), (1, 2), (2, 1), (2, 2)]);
    assert_eq!(
        vec_4,
        vec![(0, 1), (1, 0), (0, 2), (1, 1), (2, 0), (0, 3), (1, 2), (2, 1), (3, 0), (1, 3), (2, 2), (3, 1), (2, 3), (3, 2), (3, 3)]
    );
}

#[test]
fn create_buckets_test() {
    let buckets = SnowflakeIdSearchEngine::<2>::create_buckets(67_000, 20);

    assert_eq!(buckets.len(), 4096);

    let buckets_2 = SnowflakeIdSearchEngine::<2>::create_buckets(250_000, 10);

    assert_eq!(buckets_2.len(), 32768);

    for bucket in buckets {
        assert!(bucket.capacity() >= (20f64 * INITIAL_CAPACITY_FACTOR) as usize);
    }

    for bucket in buckets_2 {
        assert!(bucket.capacity() >= (10f64 * INITIAL_CAPACITY_FACTOR) as usize);
    }
}

#[test]
fn test_default_ctor() {
    let search_engine = SnowflakeIdSearchEngine::<3>::new();

    assert_eq!(search_engine.buckets().capacity(), 0);
    assert_eq!(search_engine.len(), 0);
    assert_eq!(search_engine.load_factor(), DEFAULT_LOAD_FACTOR);
    assert_eq!(
        *search_engine.wildcards(),
        vec![(0, 1), (1, 0), (0, 2), (1, 1), (2, 0), (0, 3), (1, 2), (2, 1), (3, 0), (1, 3), (2, 2), (3, 1), (2, 3), (3, 2), (3, 3)]
    );
}

#[test]
fn test_with_load_ctor() {
    let search_engine = SnowflakeIdSearchEngine::<1>::with_load_factor(50);

    assert_eq!(search_engine.buckets().capacity(), 0);
    assert_eq!(search_engine.len(), 0);
    assert_eq!(search_engine.load_factor(), 50);
    assert_eq!(*search_engine.wildcards(), vec![(0, 1), (1, 0), (1, 1)]);
}

#[test]
fn test_with_capacity_ctor() {
    let search_engine = SnowflakeIdSearchEngine::<2>::with_capacity(7831);

    assert!(search_engine.buckets().capacity() >= 512);
    assert_eq!(search_engine.len(), 0);
    assert_eq!(search_engine.load_factor(), DEFAULT_LOAD_FACTOR);
    assert_eq!(*search_engine.wildcards(), vec![(0, 1), (1, 0), (0, 2), (1, 1), (2, 0), (1, 2), (2, 1), (2, 2)]);
}

#[test]
fn test_with_load_and_capacity_ctor() {
    let search_engine = SnowflakeIdSearchEngine::<2>::with_capacity_and_load_factor(65000, 10);

    assert!(search_engine.buckets().capacity() >= 8192);
    assert_eq!(search_engine.len(), 0);
    assert_eq!(search_engine.load_factor(), 10);
    assert_eq!(*search_engine.wildcards(), vec![(0, 1), (1, 0), (0, 2), (1, 1), (2, 0), (1, 2), (2, 1), (2, 2)]);
}

fn check_buckets(search_engine: &SnowflakeIdSearchEngine<2>) {
    let buckets = search_engine.buckets();

    for (idx, bucket) in buckets.iter().enumerate() {
        assert!(bucket.windows(2).all(|e| e[0] < e[1]), "Bucket {idx} wasn't sorted or had duplicates. Bucket state: {bucket:?}");

        for id in bucket.iter().copied() {
            let idx_len = format!("{:b}", buckets.len()).len() as u64 - 1;

            assert_eq!(
                idx as u64,
                (id << (TIMESTAMP_SIZE as u64 - idx_len)) >> (Id::BITS as u64 - idx_len),
                "{id} was in the wrong bucket. Was in bucket {idx}"
            )
        }
    }
}

#[test]
fn add_unique_ids_and_expansion_test() {
    let capacity = 256 * DEFAULT_LOAD_FACTOR;
    let mut search_engine = SnowflakeIdSearchEngine::<2>::with_capacity(capacity);
    let num_buckets = search_engine.bucket_count();
    let mut rng =
        rand_pcg::Pcg64Mcg::seed_from_u64(5834024).sample_iter(Uniform::new(MIN_ID_NUMBER, REALISTIC_MAX_ID));
    let unique_ids = rng.by_ref().take(capacity).collect::<HashSet<_>>();

    for id in unique_ids.iter().copied() {
        assert!(search_engine.add_id(id), "Unique ID caused add_id to return false.");
    }

    assert_eq!(num_buckets, search_engine.bucket_count(), "The search engine bucket array shouldn't have expanded yet.");

    assert!(
        search_engine.add_id(rng.filter(|id| (!unique_ids.contains(id))).next().unwrap()),
        "Unique ID caused add_id to return false."
    );

    assert_eq!(num_buckets * 2, search_engine.bucket_count(), "The search engine bucket array never expanded.");
    assert_eq!(search_engine.len(), capacity + 1, "The length isn't correct.");
    assert!(search_engine.bucket_count().is_power_of_two(), "Search engine bucket array length not a power of two.");

    check_buckets(&search_engine);
}

#[test]
fn add_duplicate_ids_test() {
    let capacity = 256 * DEFAULT_LOAD_FACTOR;
    let mut search_engine = SnowflakeIdSearchEngine::<2>::with_capacity(capacity);
    let rng = rand_pcg::Pcg64Mcg::seed_from_u64(5834024).sample_iter(Uniform::new(MIN_ID_NUMBER, REALISTIC_MAX_ID));
    let unique_ids = rng.take(capacity).collect::<HashSet<_>>().into_iter().collect::<Vec<_>>();
    let rand_idxs = rand_pcg::Pcg64Mcg::seed_from_u64(634241).sample_iter(Uniform::new(0, unique_ids.len()));
    let duplicates = rand_idxs.take(capacity / 5).map(|idx| unique_ids[idx]);

    for id in unique_ids.iter().copied() {
        assert!(search_engine.add_id(id), "Unique ID caused add_id to return false.");
    }

    for duplicate in duplicates {
        assert!(!search_engine.add_id(duplicate), "Duplicate ID caused add_id to return true.");
    }

    assert_eq!(search_engine.len(), capacity, "The length isn't correct. Duplicates shouldn't increase the search engine's length");

    check_buckets(&search_engine);
}

#[test]
fn eq_test() {
    let mut search_engine = SnowflakeIdSearchEngine::<2>::new();
    let mut search_engine_2 = SnowflakeIdSearchEngine::<2>::with_capacity(78645);
    let mut rng = rand_pcg::Pcg64Mcg::seed_from_u64(234);
    let rand_to_insert = rng.gen_range(MIN_ID_NUMBER..REALISTIC_MAX_ID);
    let rand_vec = rng.sample_iter(Uniform::new(MIN_ID_NUMBER, REALISTIC_MAX_ID)).take(4096).collect::<Vec<_>>();

    for rand in rand_vec.iter().copied() {
        if rand_to_insert == rand {
            continue;
        }

        search_engine.add_id(rand);
    }

    assert!(search_engine.clone().eq(&search_engine));

    for rand in rand_vec.iter().copied() {
        if rand_to_insert == rand {
            continue;
        }

        search_engine_2.add_id(rand);
    }

    assert!(search_engine.eq(&search_engine_2));

    search_engine_2.add_id(rand_to_insert);

    assert!(!search_engine.eq(&search_engine_2));
}

#[test]
fn contains_test() {
    let mut search_engine = SnowflakeIdSearchEngine::<2>::new();
    let rng = rand_pcg::Pcg64Mcg::seed_from_u64(242395723);
    let mut id_gen = rng.sample_iter(Uniform::new_inclusive(MIN_ID_NUMBER, REALISTIC_MAX_ID));
    let id_set = id_gen.by_ref().take(100_000).collect::<HashSet<_>>();
    let id_vec = id_gen.take(100_000).filter(|id| !id_set.contains(id)).collect::<Vec<_>>();

    for id in id_vec.iter().copied() {
        search_engine.add_id(id);
    }

    for id in id_vec {
        assert!(search_engine.contains(id), "Search engine doesn't contain value that it should: {id}.");
    }

    for id in id_set {
        assert!(!search_engine.contains(id), "Search engine contains value that it shouldn't: {id}.");
    }
}

#[test]
fn remove_test() {
    let bucket_count = 256;
    let capacity = bucket_count * DEFAULT_LOAD_FACTOR;
    let mut search_engine = SnowflakeIdSearchEngine::<2>::with_capacity(capacity);
    let rng = rand_pcg::Pcg64Mcg::seed_from_u64(5834024).sample_iter(Uniform::new(MIN_ID_NUMBER, REALISTIC_MAX_ID));
    let unique_ids_set = rng.take(capacity).collect::<HashSet<_>>();
    let unique_ids = unique_ids_set.iter().copied().collect::<Vec<_>>();

    for id in unique_ids.iter().copied() {
        search_engine.add_id(id);
    }

    let elements_to_take = capacity as f64 * (LOAD_FACTOR_SHRINK_LIMIT * 1.5);

    let random_unique_idxs = rand_pcg::Pcg64Mcg::seed_from_u64(6452312)
        .sample_iter(Uniform::new(0, unique_ids.len()))
        .map(|idx| unique_ids[idx])
        .take(elements_to_take as usize)
        .collect::<HashSet<_>>()
        .into_iter()
        .collect::<Vec<_>>();

    for id in random_unique_idxs.iter().copied() {
        assert!(search_engine.remove_id(id), "Removal of element in search engine caused remove_id() to return false: {id}.");
    }

    assert_eq!(unique_ids.len() - random_unique_idxs.len(), search_engine.len(), "Length of the search engine wasn't correct after removals.");

    for id in random_unique_idxs.iter().copied() {
        assert!(!search_engine.contains(id), "Search engine still contains element that was removed: {id}.");
    }

    let rand_id_gen = rand_pcg::Pcg64Mcg::seed_from_u64(21831)
        .sample_iter(Uniform::new(MIN_ID_NUMBER, REALISTIC_MAX_ID))
        .take(10_000)
        .filter(|id| !unique_ids_set.contains(id));

    for id in random_unique_idxs.iter().copied().chain(rand_id_gen) {
        assert!(!search_engine.remove_id(id), "Removal of element not in search engine returned true: {id}.");
    }

    assert_eq!(search_engine.bucket_count(), bucket_count);
    assert_eq!(
        unique_ids.len() - random_unique_idxs.len(),
        search_engine.len(),
        "Length of the search engine shouldn't have changed after non-existent removals."
    );
}

#[test]
fn remove_shrink_test() {
    let bucket_count = 256;
    let capacity = bucket_count * DEFAULT_LOAD_FACTOR;
    let mut search_engine = SnowflakeIdSearchEngine::<2>::with_capacity(capacity);
    let rng = rand_pcg::Pcg64Mcg::seed_from_u64(5834024).sample_iter(Uniform::new(MIN_ID_NUMBER, REALISTIC_MAX_ID));
    let unique_ids_set = rng.take(capacity).collect::<HashSet<_>>();
    let unique_ids = unique_ids_set.iter().copied().collect::<Vec<_>>();

    for id in unique_ids.iter().copied() {
        search_engine.add_id(id);
    }

    for id in unique_ids.into_iter().take(((capacity as f64 * (1. - LOAD_FACTOR_SHRINK_LIMIT)) as usize) + 1) {
        search_engine.remove_id(id);
    }

    assert!(
        search_engine.bucket_count() < bucket_count,
        "The search engine never shrunk. The bucket count is {} and the current number of elements is {}",
        search_engine.bucket_count(),
        search_engine.len()
    );
}

#[test]
fn extend_test() {
    let mut search_engine = SnowflakeIdSearchEngine::<2>::with_capacity(100);
    let ids = vec![MIN_ID_NUMBER + 5, MIN_ID_NUMBER + 1, MIN_ID_NUMBER + 5, MIN_ID_NUMBER + 3];

    search_engine.add_id(MIN_ID_NUMBER + 3);
    search_engine.extend(ids);

    assert_eq!(search_engine.len(), 3);
    assert!(search_engine.contains(MIN_ID_NUMBER + 1));
    assert!(search_engine.contains(MIN_ID_NUMBER + 3));
    assert!(search_engine.contains(MIN_ID_NUMBER + 5));
    assert!(!search_engine.contains(MIN_ID_NUMBER + 2));
    check_buckets(&search_engine);
}

#[test]
fn extend_unsorted_insertion_test() {
    let mut search_engine = SnowflakeIdSearchEngine::<2>::new();
    let rng = rand_pcg::Pcg64Mcg::seed_from_u64(77).sample_iter(Uniform::new(MIN_ID_NUMBER, REALISTIC_MAX_ID));
    let mut ids = rng.take(5000).collect::<Vec<_>>();
    let unique = ids.iter().copied().collect::<HashSet<_>>();

    ids.extend_from_slice(&ids.clone()[..100]);
    search_engine.extend(ids);

    assert_eq!(search_engine.len(), unique.len());
    assert_eq!(search_engine.bucket_count(), 256);

    for id in unique {
        assert!(search_engine.contains(id));
    }

    check_buckets(&search_engine);
}

#[test]
fn fuzzy_search_in_the_same_bucket() {
    let mut id: Id = 367538590520967181;
    while ((id >> 22) % 2) != (((id / 100) >> 22) % 2) {
        id += 1;
    }
    let mut search_engine = SnowflakeIdSearchEngine::<2>::with_capacity(0);
    assert_eq!(search_engine.bucket_count(), 2);
    assert!(search_engine.add_id(id));
    let text = id.to_string();
    let chopped = &text[..text.len() - 2];

    assert_eq!(search_engine.find_fuzzy_match(&text), Some(id));
    assert_eq!(search_engine.find_fuzzy_match(chopped), Some(id));
    assert!(search_engine.fuzzy_contains(chopped));
    assert_eq!(search_engine.find_fuzzy_matches(chopped), vec![id]);
    assert_eq!(search_engine.find_fuzzy_matches(&text), vec![id]);
    assert_eq!(search_engine.find_fuzzy_match("12a"), None);
    assert!(search_engine.find_fuzzy_matches("123456789012345678901").is_empty());
    assert_eq!(search_engine.find_fuzzy_match_id(FuzzyMatchedId::from_id(id)), Some(id));
}

#[test]
fn add_then_remove_gives_back_the_engine() {
    let mut search_engine = SnowflakeIdSearchEngine::<2>::new();
    for id in [MIN_ID_NUMBER, MIN_ID_NUMBER + 7, 861128391953352906] {
        search_engine.add_id(id);
    }
    let before = search_engine.clone();
    assert!(search_engine.add_id(555555555555555555));
    assert!(search_engine.contains(555555555555555555));
    assert_eq!(search_engine.len(), 4);
    assert!(search_engine.remove_id(555555555555555555));
    assert!(!search_engine.contains(555555555555555555));
    assert!(search_engine.eq(&before));
    assert!(!search_engine.remove_id(555555555555555555));
    assert!(!search_engine.contains(5));
}

#[test]
fn full_buckets_double_and_sparse_ones_halve() {
    let mut search_engine = SnowflakeIdSearchEngine::<2>::with_capacity_and_load_factor(40, 10);
    assert_eq!(search_engine.bucket_count(), 4);
    for i in 0..40u64 {
        search_engine.add_id(MIN_ID_NUMBER + (i << 22));
    }
    assert_eq!(search_engine.bucket_count(), 4);
    search_engine.add_id(MIN_ID_NUMBER + (40 << 22));
    assert_eq!(search_engine.bucket_count(), 8);
    for i in 0..41u64 {
        search_engine.remove_id(MIN_ID_NUMBER + (i << 22));
    }
    assert_eq!(search_engine.len(), 0);
    assert!(search_engine.bucket_count() < 8);
    check_buckets(&search_engine);
}

#[test]
fn from_ids_and_default() {
    let search_engine = SnowflakeIdSearchEngine::<2>::from_iter(vec![MIN_ID_NUMBER + 1, MIN_ID_NUMBER + 1, MIN_ID_NUMBER + 2]);
    assert_eq!(search_engine.len(), 2);
    assert!(search_engine.contains(MIN_ID_NUMBER + 2));
    let default_engine = SnowflakeIdSearchEngine::<2>::default();
    assert_eq!(default_engine.len(), 0);
    assert_eq!(default_engine.bucket_count(), 0);
    assert_eq!(SnowflakeFuzzyMatch::new(FuzzyMatchedId::from_id(5), 0, 0), 5);
}

#[test]
fn fuzzy_search_finds_ids_in_other_buckets() {
    let mut search_engine = SnowflakeIdSearchEngine::<2>::new();
    assert!(search_engine.add_id(100_000_000_000_000_000));
    assert_eq!(search_engine.bucket_count(), 2);
    assert_eq!(search_engine.find_fuzzy_match("10000000000000000"), Some(100_000_000_000_000_000));
    assert!(search_engine.fuzzy_contains("10000000000000000"));
    assert_eq!(search_engine.find_fuzzy_matches("10000000000000000"), vec![100_000_000_000_000_000]);
    assert_eq!(
        search_engine.find_fuzzy_match_id(FuzzyMatchedId::from_id(10_000_000_000_000_000)),
        Some(100_000_000_000_000_000)
    );
}

#[test]
fn chopped_ids_are_found_whatever_their_bucket() {
    let ids = random_realistic_snowflakes(500);
    let mut search_engine = SnowflakeIdSearchEngine::<2>::new();
    for &id in &ids {
        search_engine.add_id(id);
    }
    assert!(search_engine.bucket_count() > 2);
    for &id in ids.iter().take(40) {
        let text = id.to_string();
        for left in 0..=2 {
            for right in 0..=2 {
                let chopped = &text[left..text.len() - right];
                let found = search_engine.find_fuzzy_matches(chopped);
                assert!(found.contains(&id), "{chopped} should find {id}");
                assert!(search_engine.fuzzy_contains(chopped));
                let first = search_engine.find_fuzzy_match(chopped).unwrap();
                assert!(found.contains(&first));
            }
        }
    }
}

#[test]
fn text_that_is_no_id_finds_nothing_in_an_empty_engine() {
    let search_engine = SnowflakeIdSearchEngine::<2>::new();
    assert_eq!(search_engine.find_fuzzy_match("12a"), None);
    assert_eq!(search_engine.find_fuzzy_match("123456789012345678901"), None);
    assert!(!search_engine.fuzzy_contains("12a"));
    assert!(search_engine.find_fuzzy_matches("12a").is_empty());
    assert_eq!(search_engine.find_fuzzy_match("123456789012345678"), None);
}

#[test]
fn comparing_from_either_side_agrees() {
    let id: Id = 367538590520967181;
    let text = id.to_string();
    for (left, right) in [(0, 0), (1, 0), (0, 2), (2, 1)] {
        let m = gen_fuzzy_match(&text, left, right);
        assert!(m == id);
        assert!(id == m);
        assert_eq!(id + 1 == m, m == id + 1);
    }
    assert!(5u64 == SnowflakeFuzzyMatch::new(FuzzyMatchedId::from_id(5), 0, 0));
    assert!(6u64 != SnowflakeFuzzyMatch::new(FuzzyMatchedId::from_id(5), 0, 0));
}

#[test]
fn ids_match_themselves_with_digits_chopped_off() {
    for id in [MIN_ID_NUMBER, 367538590520967181, REALISTIC_MAX_ID, 12_345_678_901_234_567_890] {
        let text = id.to_string();
        for left in 0..6 {
            for right in 0..6 {
                assert!(gen_fuzzy_match(&text, left, right) == id);
            }
        }
    }
}

#[test]
fn reading_an_id_keeps_its_zeros_and_digits() {
    for text in ["00123", "000", "0", "7", "0000000000000000009", "18446744073709551615"] {
        let f = FuzzyMatchedId::try_from_str(text).unwrap();
        assert_eq!(format!("{}{}", "0".repeat(f.leading_zeros as usize), f.no_leading_zeros_id), text);
    }
    let f = FuzzyMatchedId::try_from_str("00123").unwrap();
    assert_eq!((f.leading_zeros, f.no_leading_zeros_id), (2, 123));
    let f = FuzzyMatchedId::try_from_str("000").unwrap();
    assert_eq!((f.leading_zeros, f.no_leading_zeros_id), (2, 0));
}

#[test]
fn adding_keeps_the_load_factor() {
    let mut search_engine = SnowflakeIdSearchEngine::<2>::with_load_factor(3);
    for id in random_realistic_snowflakes(200) {
        search_engine.add_id(id);
        assert!(search_engine.len() <= search_engine.load_factor() * search_engine.bucket_count());
    }
}
