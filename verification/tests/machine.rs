use twomeans1d::binary64::EPSILON;
use twomeans1d::error::InputError;
use twomeans1d::lloyd::{Lloyd, Step, MAX_ROUNDS};

fn machine_words(values: &[f64]) -> Vec<u64> {
    values.iter().map(|x| x.to_bits()).collect()
}

fn machine_values(words: &[u64]) -> Vec<f64> {
    words.iter().map(|w| f64::from_bits(*w)).collect()
}

fn distance_rows(samples: &[f64], centroids: &[f64]) -> Vec<Vec<u64>> {
    samples
        .iter()
        .map(|x| centroids.iter().map(|c| (x - c).abs().to_bits()).collect())
        .collect()
}

/// Drives the machine with binary64 arithmetic, and reports the rounds taken.
fn drive(samples: &[f64], seed: &[f64]) -> Result<(Vec<usize>, Vec<f64>, usize), InputError> {
    let mut lloyd = Lloyd::start(samples.len(), &machine_words(seed))?;
    loop {
        let centroids = machine_values(lloyd.centroids());
        lloyd.assign(&distance_rows(samples, &centroids));
        let mut means = Vec::new();
        let mut shifts = Vec::new();
        for k in 0..centroids.len() {
            let members = lloyd.members(k);
            let mut total = 0f64;
            for n in members.iter() {
                total += samples[*n];
            }
            let mean = total / members.len() as f64;
            means.push(mean.to_bits());
            shifts.push((mean - centroids[k]).abs().to_bits());
        }
        if lloyd.update(&means, &shifts) == Step::Stop {
            break;
        }
    }
    let rounds = lloyd.rounds();
    let fit = lloyd.finish();
    Ok((fit.labels, machine_values(&fit.centroids), rounds))
}

#[test]
fn start_refuses_a_single_sample() {
    let seed = machine_words(&[4.0]);
    assert!(matches!(Lloyd::start(1, &seed), Err(InputError::TooFewSamples)));
    assert!(matches!(drive(&[4.0], &[4.0]), Err(InputError::TooFewSamples)));
    assert!(matches!(drive(&[4.0], &[4.0, 4.0]), Err(InputError::TooFewSamples)));
}

#[test]
fn start_refuses_no_samples() {
    let seed = machine_words(&[1.0, 2.0]);
    assert!(matches!(Lloyd::start(0, &seed), Err(InputError::TooFewSamples)));
}

#[test]
fn start_accepts_two_samples() {
    let seed = machine_words(&[1.0]);
    assert!(Lloyd::start(2, &seed).is_ok());
}

#[test]
fn start_orders_the_seed_and_labels_nothing() {
    let lloyd = Lloyd::start(3, &machine_words(&[102.0, 1.0])).unwrap();
    assert_eq!(machine_values(lloyd.centroids()), vec![1.0, 102.0]);
    assert_eq!(lloyd.labels(), &vec![0usize, 0, 0]);
    assert_eq!(lloyd.rounds(), 0);
    assert_eq!(lloyd.members(0), vec![0, 1, 2]);
    assert_eq!(lloyd.members(1), Vec::<usize>::new());
}

#[test]
fn update_moves_a_cluster_with_members_and_keeps_an_empty_one() {
    let mut lloyd = Lloyd::start(2, &machine_words(&[1.0, 50.0])).unwrap();
    lloyd.assign(&distance_rows(&[1.0, 2.0], &[1.0, 50.0]));
    assert_eq!(lloyd.labels(), &vec![0usize, 0]);
    let means = machine_words(&[1.5, f64::NAN]);
    let shifts = machine_words(&[0.5, f64::NAN]);
    assert_eq!(lloyd.update(&means, &shifts), Step::Continue);
    assert_eq!(machine_values(lloyd.centroids()), vec![1.5, 50.0]);
    assert_eq!(lloyd.labels(), &vec![0usize, 0]);
    assert_eq!(lloyd.rounds(), 1);
}

#[test]
fn update_stops_once_no_centroid_moved() {
    let mut lloyd = Lloyd::start(2, &machine_words(&[1.5])).unwrap();
    lloyd.assign(&distance_rows(&[1.0, 2.0], &[1.5]));
    let step = lloyd.update(&machine_words(&[1.5]), &machine_words(&[0.0]));
    assert_eq!(step, Step::Stop);
    assert_eq!(lloyd.rounds(), 1);
}

#[test]
fn update_goes_on_from_a_shift_of_machine_epsilon() {
    let below = EPSILON - 1;
    let mut lloyd = Lloyd::start(2, &machine_words(&[1.5])).unwrap();
    lloyd.assign(&distance_rows(&[1.0, 2.0], &[1.5]));
    assert_eq!(lloyd.update(&machine_words(&[1.5]), &[EPSILON]), Step::Continue);
    assert_eq!(lloyd.update(&machine_words(&[1.5]), &[EPSILON + 1]), Step::Continue);
    assert_eq!(lloyd.update(&machine_words(&[1.5]), &[below]), Step::Stop);
}

#[test]
fn update_ignores_the_shift_of_an_empty_cluster() {
    let mut lloyd = Lloyd::start(2, &machine_words(&[1.0, 50.0])).unwrap();
    lloyd.assign(&distance_rows(&[1.0, 2.0], &[1.0, 50.0]));
    let means = machine_words(&[1.0, 9.0]);
    let shifts = machine_words(&[0.0, 41.0]);
    assert_eq!(lloyd.update(&means, &shifts), Step::Stop);
    assert_eq!(machine_values(lloyd.centroids()), vec![1.0, 50.0]);
}

#[test]
fn machine_stops_after_the_greatest_number_of_rounds() {
    assert_eq!(MAX_ROUNDS, 100);
    let mut lloyd = Lloyd::start(2, &machine_words(&[0.0])).unwrap();
    let mut rounds = 0usize;
    loop {
        let centre = f64::from_bits(lloyd.centroids()[0]);
        lloyd.assign(&distance_rows(&[0.0, 1.0], &[centre]));
        rounds += 1;
        let step = lloyd.update(&machine_words(&[centre + 1.0]), &machine_words(&[1.0]));
        assert_eq!(lloyd.rounds(), rounds);
        if step == Step::Stop {
            break;
        }
        assert!(rounds < 100);
    }
    assert_eq!(rounds, 100);
    assert_eq!(f64::from_bits(lloyd.centroids()[0]), 100.0);
    let step = lloyd.update(&machine_words(&[7.0]), &machine_words(&[1.0]));
    assert_eq!(step, Step::Stop);
    assert_eq!(lloyd.rounds(), 100);
}

#[test]
fn labels_name_centroids_throughout() {
    let samples = [4.0f64, -2.0, 9.5, 0.0, 3.0, 11.0, -7.25];
    for seed in [vec![0.0], vec![-7.25, 11.0], vec![3.0, 3.0], vec![100.0, 200.0]] {
        let (labels, centroids, rounds) = drive(&samples, &seed).unwrap();
        assert_eq!(labels.len(), samples.len());
        assert_eq!(centroids.len(), seed.len());
        assert!(labels.iter().all(|l| *l < seed.len()));
        assert!(centroids.windows(2).all(|w| w[0] <= w[1]));
        assert!(1 <= rounds && rounds <= 100);
    }
}

#[test]
fn fit_of_two_separated_groups() {
    let samples = [1.0, 2.0, 3.0, 100.0, 101.0, 102.0];
    let (labels, centroids, rounds) = drive(&samples, &[1.0, 102.0]).unwrap();
    assert_eq!(labels, vec![0, 0, 0, 1, 1, 1]);
    assert_eq!(centroids, vec![2.0, 101.0]);
    assert_eq!(rounds, 2);
}

#[test]
fn fit_of_one_cluster_is_the_mean() {
    let samples = [1.0, 2.0, 3.0, 100.0, 101.0, 102.0];
    let (labels, centroids, rounds) = drive(&samples, &[51.5]).unwrap();
    assert_eq!(labels, vec![0, 0, 0, 0, 0, 0]);
    assert_eq!(centroids, vec![51.5]);
    assert_eq!(rounds, 1);
}

#[test]
fn fit_from_an_unordered_seed() {
    let samples = [1.0, 2.0, 3.0, 4.0, 10.0, 11.0, 12.5];
    let (labels, centroids, rounds) = drive(&samples, &[4.0, 3.0]).unwrap();
    assert_eq!(labels, vec![0, 0, 0, 0, 1, 1, 1]);
    assert_eq!(centroids, vec![2.5, 33.5 / 3.0]);
    assert_eq!(rounds, 3);
}

#[test]
fn fit_again_from_its_own_centroids_changes_nothing() {
    let samples = [1.0, 2.0, 3.0, 100.0, 101.0, 102.0];
    let (labels, centroids, _) = drive(&samples, &[1.0, 102.0]).unwrap();
    let (again_labels, again_centroids, rounds) = drive(&samples, &centroids).unwrap();
    assert_eq!(again_labels, labels);
    assert_eq!(again_centroids, centroids);
    assert_eq!(rounds, 1);
}

#[test]
fn fit_of_identical_samples_leaves_the_second_cluster_empty() {
    let samples = [5.0, 5.0, 5.0, 5.0];
    let (labels, centroids, _) = drive(&samples, &[5.0, 5.0]).unwrap();
    assert_eq!(labels, vec![0, 0, 0, 0]);
    assert_eq!(centroids, vec![5.0, 5.0]);
}

#[test]
fn fit_of_tiny_samples_settles_before_it_is_a_fixed_point() {
    let samples = [4e-20, 7e-20, 1e-20, 1e-20, 5e-20];
    let (labels, centroids, rounds) = drive(&samples, &[1e-20, 7e-20]).unwrap();
    assert_eq!(rounds, 1);
    assert_eq!(labels, vec![0, 1, 0, 0, 1]);
    assert_eq!(centroids, vec![(4e-20 + 1e-20 + 1e-20) / 3.0, (7e-20 + 5e-20) / 2.0]);
    let (again, _, _) = drive(&samples, &centroids).unwrap();
    assert_eq!(again, vec![1, 1, 0, 0, 1]);
}
