use evobandits::binary64::Binary64;
use evobandits::gmab_options::GmabOptions;
use evobandits::gmab_options::OptionsError;
use evobandits::gmab_options::CROSSOVER_RATE_DEFAULT;
use evobandits::gmab_options::MUTATION_RATE_DEFAULT;
use evobandits::gmab_options::MUTATION_SPAN_DEFAULT;
use evobandits::gmab_options::POPULATION_SIZE_DEFAULT;

const POPULATION_SIZE: usize = 1;
const MUTATION_RATE: f64 = 1.0;
const CROSSOVER_RATE: f64 = 0.0;
const MUTATION_SPAN: f64 = 1.1;

fn number(x: f64) -> Binary64 {
    Binary64::from_bits(x.to_bits())
}

fn as_float(x: Binary64) -> f64 {
    f64::from_bits(x.to_bits())
}

fn validate(options: &GmabOptions) {
    if let Err(error) = options.validate() {
        panic!("{}", error.message());
    }
}

#[test]
fn test_default() {
    let options = GmabOptions::default();
    validate(&options);

    assert_eq!(options.population_size, POPULATION_SIZE_DEFAULT);
    assert_eq!(as_float(options.mutation_rate), f64::from_bits(MUTATION_RATE_DEFAULT));
    assert_eq!(as_float(options.crossover_rate), f64::from_bits(CROSSOVER_RATE_DEFAULT));
    assert_eq!(as_float(options.mutation_span), f64::from_bits(MUTATION_SPAN_DEFAULT));
}

#[test]
fn test_default_with_modification() {
    let options = GmabOptions {
        population_size: POPULATION_SIZE,
        ..Default::default()
    };
    validate(&options);

    assert_eq!(options.population_size, POPULATION_SIZE);
    assert_eq!(as_float(options.mutation_rate), f64::from_bits(MUTATION_RATE_DEFAULT));
    assert_eq!(as_float(options.crossover_rate), f64::from_bits(CROSSOVER_RATE_DEFAULT));
    assert_eq!(as_float(options.mutation_span), f64::from_bits(MUTATION_SPAN_DEFAULT));
}

#[test]
fn test_only_modification() {
    let options = GmabOptions {
        population_size: POPULATION_SIZE,
        mutation_rate: number(MUTATION_RATE),
        crossover_rate: number(CROSSOVER_RATE),
        mutation_span: number(MUTATION_SPAN),
    };
    validate(&options);

    assert_eq!(options.population_size, POPULATION_SIZE);
    assert_eq!(as_float(options.mutation_rate), MUTATION_RATE);
    assert_eq!(as_float(options.crossover_rate), CROSSOVER_RATE);
    assert_eq!(as_float(options.mutation_span), MUTATION_SPAN);
}

#[test]
#[should_panic(expected = "population_size")]
fn gmab_options_test_invalid_population_size() {
    let options = GmabOptions {
        population_size: 0,
        ..Default::default()
    };
    validate(&options);
}

#[test]
#[should_panic(expected = "mutation_rate")]
fn gmab_options_test_invalid_large_mutation_rate() {
    let options = GmabOptions {
        mutation_rate: number(1.01),
        ..Default::default()
    };
    validate(&options);
}

#[test]
#[should_panic(expected = "mutation_rate")]
fn gmab_options_test_invalid_small_mutation_rate() {
    let options = GmabOptions {
        mutation_rate: number(-0.01),
        ..Default::default()
    };
    validate(&options);
}

#[test]
#[should_panic(expected = "crossover_rate")]
fn gmab_options_test_invalid_large_crossover_rate() {
    let options = GmabOptions {
        crossover_rate: number(1.01),
        ..Default::default()
    };
    validate(&options);
}

#[test]
#[should_panic(expected = "crossover_rate")]
fn gmab_options_test_invalid_small_crossover_rate() {
    let options = GmabOptions {
        crossover_rate: number(-0.01),
        ..Default::default()
    };
    validate(&options);
}

#[test]
fn gmab_options_test_invalid_large_mutation_span() {
    let options = GmabOptions {
        mutation_span: number(1.01),
        ..Default::default()
    };
    validate(&options);
}

#[test]
#[should_panic(expected = "mutation_span")]
fn gmab_options_test_invalid_small_mutation_span() {
    let options = GmabOptions {
        mutation_span: number(-0.01),
        ..Default::default()
    };
    validate(&options);
}

#[test]
fn options_report_each_setting() {
    let valid = GmabOptions::default();
    assert_eq!(valid.validate(), Ok(()));
    let options = GmabOptions { population_size: 0, ..valid };
    assert_eq!(options.validate(), Err(OptionsError::PopulationSize));
    let options = GmabOptions { mutation_rate: number(f64::NAN), ..valid };
    assert_eq!(options.validate(), Err(OptionsError::MutationRate));
    let options = GmabOptions { crossover_rate: number(1.0000000000000002), ..valid };
    assert_eq!(options.validate(), Err(OptionsError::CrossoverRate));
    let options = GmabOptions { mutation_span: number(f64::NEG_INFINITY), ..valid };
    assert_eq!(options.validate(), Err(OptionsError::MutationSpan));
}

#[test]
fn options_report_the_first_failure() {
    let options = GmabOptions {
        population_size: 0,
        mutation_rate: number(-1.0),
        crossover_rate: number(-1.0),
        mutation_span: number(-1.0),
    };
    assert_eq!(options.validate(), Err(OptionsError::PopulationSize));
    let options = GmabOptions { population_size: 1, ..options };
    assert_eq!(options.validate(), Err(OptionsError::MutationRate));
    let options = GmabOptions { mutation_rate: number(0.0), ..options };
    assert_eq!(options.validate(), Err(OptionsError::CrossoverRate));
    let options = GmabOptions { crossover_rate: number(1.0), ..options };
    assert_eq!(options.validate(), Err(OptionsError::MutationSpan));
}

#[test]
fn the_span_of_the_options_has_no_upper_limit() {
    let valid = GmabOptions::default();
    for span in [0.0, -0.0, 1.0, 1.1, 1e300, f64::INFINITY, f64::NAN] {
        let options = GmabOptions { mutation_span: number(span), ..valid };
        assert_eq!(options.validate(), Ok(()));
    }
}

#[test]
fn option_messages_name_the_setting() {
    assert_eq!(OptionsError::PopulationSize.message(), "population_size cannot be 0");
    assert_eq!(OptionsError::MutationRate.message(), "mutation_rate must be between 0.0 and 1.0");
    assert_eq!(OptionsError::CrossoverRate.message(), "crossover_rate must be between 0.0 and 1.0");
    assert_eq!(OptionsError::MutationSpan.message(), "mutation_span must be 0.0 or greater");
}
